//! Paths of the agent file system: `/proc/<id>/...`, `/home/<id>/...`
//! and `/shared/...`.

use vstd::prelude::*;
use crate::AgentId;
use crate::ids::{uuid_parse, uuid_text};
use super::FsError;

verus! {

/// The three trees of the file system.
#[derive(Debug, Clone, Copy, PartialEq, Eq, Structural, Hash)]
pub enum FsRoot {
    /// Read-only text generated from agents' records.
    Proc,
    /// Each agent's private files.
    Home,
    /// Files shared between agents.
    Shared,
}

/// `s` without its leading slashes.
pub open spec fn trim_slashes(s: Seq<char>) -> Seq<char>
    decreases s.len(),
{
    if s.len() > 0 && s[0] == '/' {
        trim_slashes(s.drop_first())
    } else {
        s
    }
}

/// The pieces of `s` between slashes; one piece when there is no slash.
pub open spec fn split_slashes(s: Seq<char>) -> Seq<Seq<char>>
    decreases s.len(),
{
    if s.len() == 0 {
        seq![Seq::empty()]
    } else {
        let init = split_slashes(s.drop_last());
        if s.last() == '/' {
            init.push(Seq::empty())
        } else {
            init.update(init.len() - 1, init.last().push(s.last()))
        }
    }
}

/// Pieces joined by slashes.
pub open spec fn join_slashes(segs: Seq<Seq<char>>) -> Seq<char>
    decreases segs.len(),
{
    if segs.len() == 0 {
        Seq::empty()
    } else if segs.len() == 1 {
        segs[0]
    } else {
        join_slashes(segs.drop_last()) + seq!['/'] + segs.last()
    }
}

/// The name of a root in a path.
pub open spec fn root_name(r: FsRoot) -> Seq<char> {
    match r {
        FsRoot::Proc => "proc"@,
        FsRoot::Home => "home"@,
        FsRoot::Shared => "shared"@,
    }
}

/// What a path's text denotes: its root, its agent and its segments;
/// `None` when the text is not a path. Leading slashes are ignored; the
/// first piece names the root; under `proc` and `home` the second piece is
/// an agent identifier.
pub open spec fn parse_path(p: Seq<char>) -> Option<(FsRoot, Option<AgentId>, Seq<Seq<char>>)> {
    let parts = split_slashes(trim_slashes(p));
    let first = parts[0];
    if first == "proc"@ || first == "home"@ {
        let root = if first == "proc"@ {
            FsRoot::Proc
        } else {
            FsRoot::Home
        };
        if parts.len() < 2 {
            None
        } else {
            match uuid_parse(parts[1]) {
                Some(v) => Some((root, Some(AgentId(v)), parts.skip(2))),
                None => None,
            }
        }
    } else if first == "shared"@ {
        Some((FsRoot::Shared, None, parts.skip(1)))
    } else {
        None
    }
}

/// The text of a path.
pub open spec fn path_text(root: FsRoot, agent: Option<AgentId>, segs: Seq<Seq<char>>) -> Seq<char> {
    seq!['/'] + root_name(root) + (match agent {
        Some(a) => seq!['/'] + uuid_text(a.0),
        None => Seq::empty(),
    }) + (if segs.len() == 0 {
        Seq::empty()
    } else {
        seq!['/'] + join_slashes(segs)
    })
}

/// A path whose text reads back to it: an agent exactly under `proc` and
/// `home`, and no slash inside a segment.
pub open spec fn path_well_formed(root: FsRoot, agent: Option<AgentId>, segs: Seq<Seq<char>>) -> bool {
    &&& (agent is Some <==> root != FsRoot::Shared)
    &&& forall|i: int| 0 <= i < segs.len() ==> !(#[trigger] segs[i]).contains('/')
}

proof fn lemma_split_len(s: Seq<char>)
    ensures
        split_slashes(s).len() >= 1,
    decreases s.len(),
{
    if s.len() > 0 {
        lemma_split_len(s.drop_last());
    }
}

/// Splitting text without slashes gives the text itself.
proof fn lemma_split_plain(s: Seq<char>)
    requires
        !s.contains('/'),
    ensures
        split_slashes(s) == seq![s],
    decreases s.len(),
{
    if s.len() > 0 {
        assert(!s.drop_last().contains('/')) by {
            if s.drop_last().contains('/') {
                let j = choose|j: int| 0 <= j < s.drop_last().len() && s.drop_last()[j] == '/';
                assert(s[j] == '/');
            }
        }
        lemma_split_plain(s.drop_last());
        assert(s.last() != '/') by {
            assert(s[s.len() - 1] == s.last());
        }
        let init = split_slashes(s.drop_last());
        assert(init == seq![s.drop_last()]);
        assert(s.drop_last().push(s.last()) =~= s);
        assert(init.update(0, init[0].push(s.last())) =~= seq![s]);
    } else {
        assert(s =~= Seq::<char>::empty());
        assert(seq![Seq::<char>::empty()] =~= seq![s]);
    }
}

/// Splitting at a slash splits each side.
proof fn lemma_split_concat(x: Seq<char>, y: Seq<char>)
    ensures
        split_slashes(x + seq!['/'] + y) == split_slashes(x) + split_slashes(y),
    decreases y.len(),
{
    lemma_split_len(x);
    if y.len() == 0 {
        let s = x + seq!['/'];
        assert(s.drop_last() =~= x);
        assert(split_slashes(x + seq!['/'] + y) == split_slashes(s)) by {
            assert(x + seq!['/'] + y =~= s);
        }
    } else {
        let s = x + seq!['/'] + y;
        assert(s.drop_last() =~= x + seq!['/'] + y.drop_last());
        assert(s.last() == y.last());
        lemma_split_concat(x, y.drop_last());
        lemma_split_len(y.drop_last());
        let a = split_slashes(x);
        let b = split_slashes(y.drop_last());
        if y.last() == '/' {
            assert((a + b).push(Seq::empty()) =~= a + b.push(Seq::empty()));
        } else {
            assert((a + b).update((a + b).len() - 1, (a + b).last().push(y.last())) =~= a + b.update(
                b.len() - 1,
                b.last().push(y.last()),
            ));
        }
    }
}

/// Joining pieces without slashes and splitting again gives the pieces.
proof fn lemma_split_join(segs: Seq<Seq<char>>)
    requires
        segs.len() >= 1,
        forall|i: int| 0 <= i < segs.len() ==> !(#[trigger] segs[i]).contains('/'),
    ensures
        split_slashes(join_slashes(segs)) == segs,
    decreases segs.len(),
{
    if segs.len() == 1 {
        lemma_split_plain(segs[0]);
        assert(seq![segs[0]] =~= segs);
    } else {
        let init = segs.drop_last();
        assert forall|i: int| 0 <= i < init.len() implies !(#[trigger] init[i]).contains('/') by {
            assert(init[i] == segs[i]);
        }
        lemma_split_join(init);
        lemma_split_concat(join_slashes(init), segs.last());
        lemma_split_plain(segs.last());
        assert(init + seq![segs.last()] =~= segs);
    }
}

/// Text that starts with something other than a slash is its own trim.
proof fn lemma_trim_plain(s: Seq<char>)
    requires
        s.len() > 0,
        s[0] != '/',
    ensures
        trim_slashes(s) == s,
{
}

/// Where `p` is the text of a well-formed path, parsing it gives back
/// its root, its agent's identifier text and its segments.
pub proof fn lemma_text_pieces(root: FsRoot, agent: Option<AgentId>, segs: Seq<Seq<char>>)
    requires
        path_well_formed(root, agent, segs),
    ensures
        ({
            let parts = split_slashes(trim_slashes(path_text(root, agent, segs)));
            &&& parts[0] == root_name(root)
            &&& match agent {
                Some(a) => parts.len() >= 2 && parts[1] == uuid_text(a.0) && parts.skip(2) == segs,
                None => parts.skip(1) == segs,
            }
        }),
{
    reveal_strlit("proc");
    reveal_strlit("home");
    reveal_strlit("shared");
    let name = root_name(root);
    let text = path_text(root, agent, segs);
    assert(text[0] == '/');
    assert(text.drop_first() =~= name + (match agent {
        Some(a) => seq!['/'] + uuid_text(a.0),
        None => Seq::empty(),
    }) + (if segs.len() == 0 {
        Seq::empty()
    } else {
        seq!['/'] + join_slashes(segs)
    }));
    let body = text.drop_first();
    assert(!name.contains('/'));
    assert(body[0] == name[0]);
    lemma_trim_plain(body);
    assert(trim_slashes(text) == body);
    match agent {
        Some(a) => {
            let id = uuid_text(a.0);
            assert(!id.contains('/')) by {
                if id.contains('/') {
                    let j = choose|j: int| 0 <= j < id.len() && id[j] == '/';
                    assert(id[j] == '-' || id[j] == crate::ids::hex_digit(crate::ids::nibble_at(a.0, j - crate::ids::hyphens_before(j))));
                }
            }
            lemma_split_plain(name);
            if segs.len() == 0 {
                lemma_split_plain(id);
                assert(body =~= name + seq!['/'] + id);
                lemma_split_concat(name, id);
                assert(split_slashes(body) =~= seq![name, id]);
                assert(split_slashes(body).skip(2) =~= segs);
            } else {
                lemma_split_join(segs);
                lemma_split_plain(id);
                assert(body =~= name + seq!['/'] + (id + seq!['/'] + join_slashes(segs)));
                lemma_split_concat(id, join_slashes(segs));
                lemma_split_concat(name, id + seq!['/'] + join_slashes(segs));
                assert(split_slashes(body) =~= seq![name, id] + segs);
                assert(split_slashes(body).skip(2) =~= segs);
            }
        },
        None => {
            lemma_split_plain(name);
            if segs.len() == 0 {
                assert(body =~= name);
                assert(split_slashes(body).skip(1) =~= segs);
            } else {
                lemma_split_join(segs);
                assert(body =~= name + seq!['/'] + join_slashes(segs));
                lemma_split_concat(name, join_slashes(segs));
                assert(split_slashes(body) =~= seq![name] + segs);
                assert(split_slashes(body).skip(1) =~= segs);
            }
        },
    }
}

/// A parsed path.
#[derive(Debug)]
pub struct FsPath {
    pub root: FsRoot,
    pub agent_id: Option<AgentId>,
    pub segments: Vec<String>,
}

/// The texts of a list of strings.
pub open spec fn texts(v: Seq<String>) -> Seq<Seq<char>> {
    v.map_values(|s: String| s@)
}

impl FsPath {
    /// The segments' texts.
    pub open spec fn segs(&self) -> Seq<Seq<char>> {
        texts(self.segments@)
    }

    /// The path as the file system reads it.
    pub open spec fn parts(&self) -> (FsRoot, Option<AgentId>, Seq<Seq<char>>) {
        (self.root, self.agent_id, self.segs())
    }

    /// Parse a path's text. `InvalidPath` exactly when `parse_path` says
    /// it is not a path; the text of a well-formed path parses back to it.
    pub fn parse(path: &str) -> (r: Result<FsPath, FsError>)
        ensures
            match r {
                Ok(p) => parse_path(path@) == Some(p.parts()),
                Err(e) => parse_path(path@) is None && e == FsError::InvalidPath,
            },
            forall|root: FsRoot, agent: Option<AgentId>, segs: Seq<Seq<char>>|
                path@ == #[trigger] path_text(root, agent, segs) && path_well_formed(root, agent, segs) ==> (r
                    matches Ok(p) && p.parts() == (root, agent, segs)),
    {
        let n = path.unicode_len();
        let mut k: usize = 0;
        assert(path@.subrange(0, n as int) =~= path@);
        while k < n && path.get_char(k) == '/'
            invariant
                k <= n,
                n == path@.len(),
                trim_slashes(path@) == trim_slashes(path@.subrange(k as int, n as int)),
            decreases n - k,
        {
            proof {
                let t = path@.subrange(k as int, n as int);
                assert(t.drop_first() =~= path@.subrange(k + 1, n as int));
            }
            k = k + 1;
        }
        proof {
            let t = path@.subrange(k as int, n as int);
            if t.len() > 0 {
                assert(t[0] == path@[k as int]);
            }
        }
        let rest = path.substring_char(k, n);
        let parts = split_on_slash(rest);
        let ghost ps = split_slashes(trim_slashes(path@));
        assert(texts(parts@) == ps);
        proof {
            lemma_split_len(trim_slashes(path@));
        }
        assert(parts@[0]@ == ps[0]);
        let proc_name = String::from_str("proc");
        let home_name = String::from_str("home");
        let shared_name = String::from_str("shared");
        let is_proc = parts[0] == proc_name;
        let is_home = parts[0] == home_name;
        let r = if is_proc || is_home {
            let root = if is_proc {
                FsRoot::Proc
            } else {
                FsRoot::Home
            };
            if parts.len() < 2 {
                Err(FsError::InvalidPath)
            } else {
                assert(parts@[1]@ == ps[1]);
                match crate::ids::uuid_from_text(parts[1].as_str()) {
                    Some(v) => {
                        let segments = clone_from(&parts, 2);
                        assert(texts(segments@) =~= ps.skip(2));
                        Ok(FsPath { root, agent_id: Some(AgentId(v)), segments })
                    },
                    None => Err(FsError::InvalidPath),
                }
            }
        } else if parts[0] == shared_name {
            let segments = clone_from(&parts, 1);
            assert(texts(segments@) =~= ps.skip(1));
            Ok(FsPath { root: FsRoot::Shared, agent_id: None, segments })
        } else {
            Err(FsError::InvalidPath)
        };
        proof {
            assert forall|root: FsRoot, agent: Option<AgentId>, segs: Seq<Seq<char>>|
                path@ == #[trigger] path_text(root, agent, segs) && path_well_formed(
                    root,
                    agent,
                    segs,
                ) implies (r matches Ok(p) && p.parts() == (root, agent, segs)) by {
                lemma_text_pieces(root, agent, segs);
                reveal_strlit("proc");
                reveal_strlit("home");
                reveal_strlit("shared");
                assert(ps[0] == root_name(root));
                assert("home"@ != "proc"@) by {
                    assert("home"@[0] != "proc"@[0]);
                }
                assert("shared"@ != "proc"@ && "shared"@ != "home"@) by {
                    assert("shared"@.len() != "proc"@.len());
                }
                match root {
                    FsRoot::Proc => {
                        assert(is_proc);
                        let a = agent->Some_0;
                        assert(parts@.len() >= 2);
                        assert(parts@[1]@ == ps[1]);
                        assert(parts@[1]@ == uuid_text(a.0));
                    },
                    FsRoot::Home => {
                        assert(!is_proc);
                        assert(is_home);
                        let a = agent->Some_0;
                        assert(parts@.len() >= 2);
                        assert(parts@[1]@ == ps[1]);
                        assert(parts@[1]@ == uuid_text(a.0));
                    },
                    FsRoot::Shared => {
                        assert(!is_proc);
                        assert(!is_home);
                    },
                }
            }
        }
        r
    }

    /// The path's text: `/root`, then `/` and the agent's identifier when
    /// there is one, then `/` and the segments joined by `/` when there are
    /// any.
    pub fn to_string(&self) -> (s: String)
        ensures
            s@ == path_text(self.root, self.agent_id, self.segs()),
    {
        let mut s = String::from_str("/");
        proof {
            reveal_strlit("/");
        }
        match self.root {
            FsRoot::Proc => s.append("proc"),
            FsRoot::Home => s.append("home"),
            FsRoot::Shared => s.append("shared"),
        }
        match self.agent_id {
            Some(id) => {
                s.append("/");
                let t = id.to_string();
                s.append(t.as_str());
            },
            None => {},
        }
        if self.segments.len() > 0 {
            s.append("/");
            let j = join_with_slashes(&self.segments);
            s.append(j.as_str());
        }
        s
    }
}

/// The pieces of `s` between slashes.
fn split_on_slash(s: &str) -> (v: Vec<String>)
    ensures
        texts(v@) == split_slashes(s@),
{
    let n = s.unicode_len();
    let mut parts: Vec<String> = Vec::new();
    let mut start: usize = 0;
    let mut i: usize = 0;
    assert(texts(parts@) =~= Seq::<Seq<char>>::empty());
    assert(s@.subrange(0, 0) =~= Seq::<char>::empty());
    assert(texts(parts@).push(s@.subrange(0, 0)) =~= seq![Seq::<char>::empty()]);
    assert(s@.take(0) =~= Seq::<char>::empty());
    while i < n
        invariant
            start <= i <= n,
            n == s@.len(),
            texts(parts@).push(s@.subrange(start as int, i as int)) == split_slashes(s@.take(i as int)),
        decreases n - i,
    {
        let c = s.get_char(i);
        proof {
            let t = s@.take(i + 1);
            assert(t.drop_last() =~= s@.take(i as int));
            assert(t.last() == c);
        }
        if c == '/' {
            let piece = s.substring_char(start, i);
            let ghost before = texts(parts@);
            parts.push(String::from_str(piece));
            proof {
                assert(texts(parts@) =~= before.push(s@.subrange(start as int, i as int)));
                assert(s@.subrange(i + 1, i + 1) =~= Seq::<char>::empty());
            }
            start = i + 1;
        } else {
            proof {
                let before = texts(parts@);
                assert(s@.subrange(start as int, i + 1) =~= s@.subrange(start as int, i as int).push(c));
                assert(before.push(s@.subrange(start as int, i as int)).update(
                    before.len() as int,
                    s@.subrange(start as int, i as int).push(c),
                ) =~= before.push(s@.subrange(start as int, i + 1)));
            }
        }
        i = i + 1;
    }
    let piece = s.substring_char(start, n);
    let ghost before = texts(parts@);
    parts.push(String::from_str(piece));
    proof {
        assert(texts(parts@) =~= before.push(s@.subrange(start as int, n as int)));
        assert(s@.take(n as int) =~= s@);
    }
    parts
}

/// Copies of the strings from position `from` on.
fn clone_from(v: &Vec<String>, from: usize) -> (r: Vec<String>)
    requires
        from <= v@.len(),
    ensures
        r@ == v@.skip(from as int),
{
    let mut r: Vec<String> = Vec::new();
    let mut i: usize = from;
    while i < v.len()
        invariant
            from <= i <= v@.len(),
            r@ == v@.subrange(from as int, i as int),
        decreases v@.len() - i,
    {
        r.push(v[i].clone());
        proof {
            assert(r@ =~= v@.subrange(from as int, i + 1));
        }
        i = i + 1;
    }
    assert(r@ =~= v@.skip(from as int));
    r
}

/// The strings joined by slashes.
pub fn join_with_slashes(v: &Vec<String>) -> (s: String)
    ensures
        s@ == join_slashes(texts(v@)),
{
    let mut s = String::new();
    let mut i: usize = 0;
    while i < v.len()
        invariant
            i <= v@.len(),
            s@ == join_slashes(texts(v@.take(i as int))),
        decreases v@.len() - i,
    {
        proof {
            reveal_strlit("/");
            let t = texts(v@.take(i + 1));
            assert(t.drop_last() =~= texts(v@.take(i as int)));
            assert(t.last() == v@[i as int]@);
            if i == 0 {
                assert(t =~= seq![v@[0]@]);
            }
        }
        if i > 0 {
            s.append("/");
        }
        s.append(v[i].as_str());
        proof {
            if i == 0 {
                assert(s@ =~= v@[0]@);
            }
        }
        i = i + 1;
    }
    proof {
        assert(v@.take(v@.len() as int) =~= v@);
    }
    s
}

} // verus!
