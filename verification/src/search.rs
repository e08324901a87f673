//! Text searches: whether a text occurs in another, which of several
//! patterns occurs first, and the first line of a trimmed text.

use vstd::prelude::*;

verus! {

/// Whether `needle` occurs in `hay`.
pub open spec fn occurs_in(needle: Seq<char>, hay: Seq<char>) -> bool {
    exists|i: int| 0 <= i <= hay.len() - needle.len() && #[trigger] hay.subrange(i, i + needle.len()) == needle
}

/// Whether `needle` occurs in `hay`.
pub fn text_contains(hay: &str, needle: &str) -> (r: bool)
    ensures
        r == occurs_in(needle@, hay@),
{
    let n = hay.unicode_len();
    let m = needle.unicode_len();
    if m > n {
        return false;
    }
    if m == 0 {
        proof {
            assert(hay@.subrange(0, 0 + needle@.len() as int) =~= needle@);
            assert(occurs_in(needle@, hay@));
        }
        return true;
    }
    let last = n - m;
    let mut i: usize = 0;
    while i <= last
        invariant
            n == hay@.len(),
            m == needle@.len(),
            last == n - m,
            m >= 1,
            i <= last + 1,
            forall|k: int| 0 <= k < i ==> #[trigger] hay@.subrange(k, k + m) != needle@,
        decreases last + 1 - i,
    {
        let mut j: usize = 0;
        let mut same = true;
        while j < m
            invariant
                n == hay@.len(),
                m == needle@.len(),
                i <= last,
                last == n - m,
                j <= m,
                same ==> forall|k: int| 0 <= k < j ==> hay@[i + k] == needle@[k],
                !same ==> hay@.subrange(i as int, i + m) != needle@,
            decreases m - j,
        {
            if same {
                let a = hay.get_char(i + j);
                let b = needle.get_char(j);
                if a != b {
                    same = false;
                    proof {
                        assert(hay@.subrange(i as int, i + m)[j as int] == a);
                    }
                }
            }
            j = j + 1;
        }
        if same {
            proof {
                assert(hay@.subrange(i as int, i + m) =~= needle@);
            }
            return true;
        }
        i = i + 1;
    }
    proof {
        if occurs_in(needle@, hay@) {
            let w = choose|w: int| 0 <= w <= hay@.len() - needle@.len() && #[trigger] hay@.subrange(w, w + needle@.len())
                == needle@;
            assert(hay@.subrange(w, w + m) != needle@);
        }
    }
    false
}

/// Position of the first pattern that occurs in `text` (or the number of
/// patterns).
pub open spec fn first_occurring(text: Seq<char>, patterns: Seq<String>) -> int
    decreases patterns.len(),
{
    if patterns.len() == 0 {
        0
    } else if occurs_in(patterns[0]@, text) {
        0
    } else {
        1 + first_occurring(text, patterns.drop_first())
    }
}

proof fn lemma_first_occurring(text: Seq<char>, patterns: Seq<String>)
    ensures
        0 <= first_occurring(text, patterns) <= patterns.len(),
        first_occurring(text, patterns) < patterns.len() ==> occurs_in(
            patterns[first_occurring(text, patterns)]@,
            text,
        ),
        forall|j: int| 0 <= j < first_occurring(text, patterns) ==> !occurs_in(#[trigger] patterns[j]@, text),
    decreases patterns.len(),
{
    if patterns.len() > 0 && !occurs_in(patterns[0]@, text) {
        lemma_first_occurring(text, patterns.drop_first());
        assert forall|j: int| 0 <= j < first_occurring(text, patterns) implies !occurs_in(
            #[trigger] patterns[j]@,
            text,
        ) by {
            if j > 0 {
                assert(patterns[j] == patterns.drop_first()[j - 1]);
            }
        }
    }
}

/// The first of `patterns` that occurs in `text`, by position; `None`
/// when none does.
pub fn first_pattern_in(text: &str, patterns: &Vec<String>) -> (r: Option<usize>)
    ensures
        ({
            let f = first_occurring(text@, patterns@);
            &&& f < patterns@.len() ==> r == Some(f as usize)
            &&& f == patterns@.len() ==> r is None
        }),
{
    proof {
        lemma_first_occurring(text@, patterns@);
    }
    let mut i: usize = 0;
    while i < patterns.len()
        invariant
            i <= patterns@.len(),
            0 <= first_occurring(text@, patterns@) <= patterns@.len(),
            first_occurring(text@, patterns@) < patterns@.len() ==> occurs_in(
                patterns@[first_occurring(text@, patterns@)]@,
                text@,
            ),
            forall|j: int| 0 <= j < first_occurring(text@, patterns@) ==> !occurs_in(#[trigger] patterns@[j]@, text@),
            forall|j: int| 0 <= j < i ==> !occurs_in(#[trigger] patterns@[j]@, text@),
        decreases patterns@.len() - i,
    {
        if text_contains(text, patterns[i].as_str()) {
            proof {
                if first_occurring(text@, patterns@) > i {
                    assert(!occurs_in(patterns@[i as int]@, text@));
                }
            }
            return Some(i);
        }
        i = i + 1;
    }
    proof {
        if first_occurring(text@, patterns@) < patterns@.len() {
            assert(!occurs_in(patterns@[first_occurring(text@, patterns@)]@, text@));
        }
    }
    None
}

/// Whether `c` is white space (the Unicode `White_Space` property).
pub open spec fn is_white_space(c: char) -> bool {
    ||| '\t' <= c <= '\r'
    ||| c == ' '
    ||| c == '\u{85}'
    ||| c == '\u{A0}'
    ||| c == '\u{1680}'
    ||| '\u{2000}' <= c <= '\u{200A}'
    ||| c == '\u{2028}'
    ||| c == '\u{2029}'
    ||| c == '\u{202F}'
    ||| c == '\u{205F}'
    ||| c == '\u{3000}'
}

fn white_space(c: char) -> (r: bool)
    ensures
        r == is_white_space(c),
{
    ('\t' <= c && c <= '\r') || c == ' ' || c == '\u{85}' || c == '\u{A0}' || c == '\u{1680}' || ('\u{2000}' <= c
        && c <= '\u{200A}') || c == '\u{2028}' || c == '\u{2029}' || c == '\u{202F}' || c == '\u{205F}' || c
        == '\u{3000}'
}

/// `s` without its leading white space.
pub open spec fn trim_start(s: Seq<char>) -> Seq<char>
    decreases s.len(),
{
    if s.len() > 0 && is_white_space(s[0]) {
        trim_start(s.drop_first())
    } else {
        s
    }
}

/// `s` without its trailing white space.
pub open spec fn trim_end(s: Seq<char>) -> Seq<char>
    decreases s.len(),
{
    if s.len() > 0 && is_white_space(s.last()) {
        trim_end(s.drop_last())
    } else {
        s
    }
}

/// The first line of a text that is not empty: up to the first `\n`, with
/// a `\r` just before it dropped; the whole text without a `\n`.
pub open spec fn first_line(s: Seq<char>) -> Seq<char> {
    if s.contains('\n') {
        let k = choose|k: int| 0 <= k < s.len() && s[k] == '\n' && forall|j: int| 0 <= j < k ==> s[j] != '\n';
        if k > 0 && s[k - 1] == '\r' {
            s.take(k - 1)
        } else {
            s.take(k)
        }
    } else {
        s
    }
}

/// The message of a command that failed: its first line of error output,
/// once trimmed, or a default when there is none.
pub open spec fn failure_message(stderr: Seq<char>) -> Seq<char> {
    let t = trim_end(trim_start(stderr));
    "command failed: "@ + if t.len() == 0 {
        "No error message"@
    } else {
        first_line(t)
    }
}

proof fn lemma_trim_start_is_suffix(s: Seq<char>, i: int)
    requires
        0 <= i <= s.len(),
        forall|j: int| 0 <= j < i ==> is_white_space(#[trigger] s[j]),
        i == s.len() || !is_white_space(s[i]),
    ensures
        trim_start(s) == s.skip(i),
    decreases i,
{
    if i > 0 {
        assert forall|j: int| 0 <= j < i - 1 implies is_white_space(#[trigger] s.drop_first()[j]) by {
            assert(s.drop_first()[j] == s[j + 1]);
        }
        if i < s.len() {
            assert(s.drop_first()[i - 1] == s[i]);
        }
        lemma_trim_start_is_suffix(s.drop_first(), i - 1);
        assert(s.drop_first().skip(i - 1) =~= s.skip(i));
    } else {
        assert(s.skip(0) =~= s);
    }
}

proof fn lemma_trim_end_is_prefix(s: Seq<char>, e: int)
    requires
        0 <= e <= s.len(),
        forall|j: int| e <= j < s.len() ==> is_white_space(#[trigger] s[j]),
        e == 0 || !is_white_space(s[e - 1]),
    ensures
        trim_end(s) == s.take(e),
    decreases s.len() - e,
{
    if e < s.len() {
        assert forall|j: int| e <= j < s.drop_last().len() implies is_white_space(#[trigger] s.drop_last()[j]) by {
            assert(s.drop_last()[j] == s[j]);
        }
        if e > 0 {
            assert(s.drop_last()[e - 1] == s[e - 1]);
        }
        assert(is_white_space(s[s.len() - 1]));
        lemma_trim_end_is_prefix(s.drop_last(), e);
        assert(s.drop_last().take(e) =~= s.take(e));
    } else {
        assert(s.take(e) =~= s);
    }
}

/// The message a failed command is reported with (see `failure_message`).
pub fn command_failure_message(stderr: &str) -> (r: String)
    ensures
        r@ == failure_message(stderr@),
{
    let n = stderr.unicode_len();
    let mut a: usize = 0;
    while a < n && white_space(stderr.get_char(a))
        invariant
            n == stderr@.len(),
            a <= n,
            forall|j: int| 0 <= j < a ==> is_white_space(#[trigger] stderr@[j]),
        decreases n - a,
    {
        a = a + 1;
    }
    proof {
        lemma_trim_start_is_suffix(stderr@, a as int);
    }
    let mut b: usize = n;
    while b > a && white_space(stderr.get_char(b - 1))
        invariant
            n == stderr@.len(),
            a <= b <= n,
            forall|j: int| b <= j < n ==> is_white_space(#[trigger] stderr@[j]),
        decreases b - a,
    {
        b = b - 1;
    }
    let ghost t = stderr@.skip(a as int);
    proof {
        assert forall|j: int| b - a <= j < t.len() implies is_white_space(#[trigger] t[j]) by {
            assert(t[j] == stderr@[a + j]);
        }
        if b > a {
            assert(t[b - a - 1] == stderr@[b - 1]);
        }
        lemma_trim_end_is_prefix(t, b - a);
        assert(t.take(b - a) =~= stderr@.subrange(a as int, b as int));
    }
    let mut msg = String::from_str("command failed: ");
    proof {
        reveal_strlit("command failed: ");
        reveal_strlit("No error message");
    }
    if a == b {
        msg.append("No error message");
        return msg;
    }
    let trimmed = stderr.substring_char(a, b);
    let len = b - a;
    let mut k: usize = 0;
    while k < len && trimmed.get_char(k) != '\n'
        invariant
            len == trimmed@.len(),
            k <= len,
            forall|j: int| 0 <= j < k ==> #[trigger] trimmed@[j] != '\n',
        decreases len - k,
    {
        k = k + 1;
    }
    let ghost s = trimmed@;
    let end = if k < len && k > 0 && trimmed.get_char(k - 1) == '\r' {
        k - 1
    } else {
        k
    };
    proof {
        if k < len {
            assert(s.contains('\n'));
            let c = choose|c: int| 0 <= c < s.len() && s[c] == '\n' && forall|j: int| 0 <= j < c ==> s[j] != '\n';
            if c < k {
                assert(s[c] != '\n');
            }
            if c > k {
                assert(s[k as int] != '\n');
            }
            assert(c == k);
        } else {
            assert(!s.contains('\n')) by {
                if s.contains('\n') {
                    let c = choose|c: int| 0 <= c < s.len() && s[c] == '\n';
                    assert(s[c] != '\n');
                }
            }
            assert(s.take(len as int) =~= s);
        }
    }
    let line = trimmed.substring_char(0, end);
    msg.append(line);
    proof {
        assert(line@ =~= first_line(s));
    }
    msg
}

} // verus!
