//! Tool results, and the tools whose logic is the runtime's own: echo,
//! the key-value memory tool, and the answer to a call of an unknown tool.
//! A call's arguments reach the memory tool as `ToolArgs`: each named
//! argument with its text, when it is a JSON string, and its value, which
//! the runtime passes through without interpreting it.

use vstd::prelude::*;
use crate::ToolCallRequest;
use crate::search::{command_failure_message, failure_message};

verus! {

/// The outcome of a tool execution.
#[derive(Debug)]
pub enum ToolOutcome {
    /// The tool completed, returning a JSON value.
    Success(serde_json::Value),
    /// The tool failed, with a machine-readable code and a message.
    Error { code: String, message: String },
}

/// The result of one tool call, matched to its request by `call_id`.
#[derive(Debug)]
pub struct ToolResult {
    pub call_id: String,
    pub tool_name: String,
    pub outcome: ToolOutcome,
}

/// Builds `serde_json::Value::Null`. Nothing is stated of the opaque value.
#[verifier::external_body]
fn json_null() -> serde_json::Value {
    serde_json::Value::Null
}

/// The JSON string value holding the text `s`.
pub uninterp spec fn json_string_value(s: Seq<char>) -> serde_json::Value;

/// Builds `serde_json::Value::String(s)`: the JSON string value of the
/// text, which depends on the text alone.
#[verifier::external_body]
fn json_string(s: String) -> (r: serde_json::Value)
    ensures
        r == json_string_value(s@),
{
    serde_json::Value::String(s)
}

/// The echo tool: succeeds with the call's arguments.
pub fn echo(req: &ToolCallRequest) -> (r: ToolResult)
    ensures
        r.call_id@ == req.call_id@,
        r.tool_name@ == "echo"@,
        r.outcome == ToolOutcome::Success(req.args),
{
    ToolResult {
        call_id: req.call_id.clone(),
        tool_name: String::from_str("echo"),
        outcome: ToolOutcome::Success(req.args.clone()),
    }
}

/// The message for a call of a tool nothing is registered under.
pub open spec fn unknown_tool_message(name: Seq<char>) -> Seq<char> {
    "no tool registered with name '"@ + name + "'"@
}

/// The answer to a call of a tool nothing is registered under: an
/// `UNKNOWN_TOOL` error, under the requested tool's name.
pub fn unknown_tool(req: &ToolCallRequest) -> (r: ToolResult)
    ensures
        r.call_id@ == req.call_id@,
        r.tool_name@ == req.tool_name@,
        r.outcome matches ToolOutcome::Error { code, message } && code@ == "UNKNOWN_TOOL"@ && message@
            == unknown_tool_message(req.tool_name@),
{
    let mut message = String::from_str("no tool registered with name '");
    message.append(req.tool_name.as_str());
    message.append("'");
    ToolResult {
        call_id: req.call_id.clone(),
        tool_name: req.tool_name.clone(),
        outcome: ToolOutcome::Error { code: String::from_str("UNKNOWN_TOOL"), message },
    }
}

/// A key-value store of JSON values, one value per key.
#[derive(Debug)]
pub struct KeyValueStore {
    entries: Vec<(String, serde_json::Value)>,
}

/// The keys of a list of entries, as texts.
pub open spec fn entry_keys(s: Seq<(String, serde_json::Value)>) -> Seq<Seq<char>> {
    s.map_values(|e: (String, serde_json::Value)| e.0@)
}

impl KeyValueStore {
    /// The stored values, by key.
    pub closed spec fn view_map(&self) -> Map<Seq<char>, serde_json::Value> {
        Map::new(
            |k: Seq<char>| entry_keys(self.entries@).contains(k),
            |k: Seq<char>| self.entries@[entry_keys(self.entries@).index_of(k)].1,
        )
    }

    /// No key is stored twice.
    #[verifier::type_invariant]
    spec fn wf(&self) -> bool {
        entry_keys(self.entries@).no_duplicates()
    }

    /// An empty store.
    pub fn new() -> (s: Self)
        ensures
            s.view_map() == Map::<Seq<char>, serde_json::Value>::empty(),
    {
        let s = KeyValueStore { entries: Vec::new() };
        assert(s.view_map() =~= Map::<Seq<char>, serde_json::Value>::empty());
        s
    }

    fn find(&self, key: &str) -> (r: Option<usize>)
        ensures
            r is None ==> !entry_keys(self.entries@).contains(key@),
            r matches Some(i) ==> i < self.entries@.len() && self.entries@[i as int].0@ == key@,
    {
        let k = String::from_str(key);
        let mut i: usize = 0;
        while i < self.entries.len()
            invariant
                i <= self.entries@.len(),
                k@ == key@,
                forall|j: int| 0 <= j < i ==> self.entries@[j].0@ != key@,
            decreases self.entries@.len() - i,
        {
            if self.entries[i].0 == k {
                return Some(i);
            }
            i = i + 1;
        }
        proof {
            if entry_keys(self.entries@).contains(key@) {
                let j = choose|j: int| 0 <= j < entry_keys(self.entries@).len() && entry_keys(self.entries@)[j] == key@;
                assert(self.entries@[j].0@ == key@);
            }
        }
        None
    }

    proof fn lemma_index(&self, i: int)
        requires
            self.wf(),
            0 <= i < self.entries@.len(),
        ensures
            self.view_map().contains_key(self.entries@[i].0@),
            self.view_map()[self.entries@[i].0@] == self.entries@[i].1,
    {
        let ks = entry_keys(self.entries@);
        assert(ks[i] == self.entries@[i].0@);
        assert(ks.contains(ks[i]));
        ks.index_of_first_ensures(ks[i]);
        let f = ks.index_of(ks[i]);
        assert(ks[f] == ks[i]);
    }

    /// The value stored under `key`, copied.
    pub fn get(&self, key: &str) -> (r: Option<serde_json::Value>)
        ensures
            r == (if self.view_map().contains_key(key@) {
                Some(self.view_map()[key@])
            } else {
                None::<serde_json::Value>
            }),
    {
        proof {
            use_type_invariant(self);
        }
        match self.find(key) {
            None => None,
            Some(i) => {
                proof {
                    self.lemma_index(i as int);
                }
                Some(self.entries[i].1.clone())
            },
        }
    }

    /// Store `value` under `key`, replacing what was there.
    pub fn set(&mut self, key: String, value: serde_json::Value)
        ensures
            final(self).view_map() == old(self).view_map().insert(key@, value),
    {
        proof {
            use_type_invariant(&*self);
        }
        let ghost k = key@;
        let ghost before = self.entries@;
        let found = self.find(key.as_str());
        let mut entries: Vec<(String, serde_json::Value)> = Vec::new();
        std::mem::swap(&mut entries, &mut self.entries);
        assert(entries@ == before);
        match found {
            Some(i) => {
                entries.set(i, (key, value));
                proof {
                    assert(entry_keys(entries@) =~= entry_keys(before));
                }
            },
            None => {
                entries.push((key, value));
                proof {
                    assert(entry_keys(entries@) =~= entry_keys(before).push(k));
                    let ks = entry_keys(entries@);
                    assert forall|a: int, b: int| 0 <= a < b < ks.len() implies ks[a] != ks[b] by {
                        if b == ks.len() - 1 {
                            assert(entry_keys(before)[a] == ks[a]);
                            assert(entry_keys(before).contains(ks[a]));
                        } else {
                            assert(entry_keys(before)[a] == ks[a]);
                            assert(entry_keys(before)[b] == ks[b]);
                        }
                    }
                }
            },
        }
        self.entries = entries;
        proof {
            let ks = entry_keys(self.entries@);
            let kb = entry_keys(before);
            match found {
                Some(i) => {
                    assert(kb[i as int] == k);
                    assert(old(self).view_map().contains_key(k));
                    assert forall|x: Seq<char>| #[trigger] self.view_map().contains_key(x) <==> old(
                        self,
                    ).view_map().insert(k, value).contains_key(x) by {
                        assert(ks.contains(x) <==> kb.contains(x));
                    }
                    assert forall|x: Seq<char>| #[trigger] self.view_map().contains_key(x) implies self.view_map()[x]
                        == old(self).view_map().insert(k, value)[x] by {
                        ks.index_of_first_ensures(x);
                        let j = ks.index_of(x);
                        if x == k {
                            assert(ks[i as int] == k);
                            if j != i {
                                assert(ks[j] == ks[i as int]);
                            }
                        } else {
                            assert(j != i);
                            assert(self.entries@[j] == before[j]);
                        }
                    }
                },
                None => {
                    assert forall|x: Seq<char>| #[trigger] self.view_map().contains_key(x) implies self.view_map()[x]
                        == old(self).view_map().insert(k, value)[x] by {
                        ks.index_of_first_ensures(x);
                        let j = ks.index_of(x);
                        if x == k {
                            let last = ks.len() - 1;
                            assert(ks[last] == k);
                            if j != last {
                                assert(ks[j] == ks[last]);
                            }
                        } else {
                            assert(j < before.len()) by {
                                if j == before.len() {
                                    assert(ks[j] == k);
                                }
                            }
                            assert(self.entries@[j] == before[j]);
                            assert(kb[j] == x);
                            assert(kb.contains(x));
                            kb.index_of_first_ensures(x);
                            let jb = kb.index_of(x);
                            assert(ks[jb] == x);
                            if jb != j {
                                assert(ks[jb] == ks[j]);
                            }
                        }
                    }
                    assert forall|x: Seq<char>| #[trigger] old(self).view_map().insert(k, value).contains_key(x)
                        implies self.view_map().contains_key(x) by {
                        if x != k {
                            let j = choose|j: int| 0 <= j < kb.len() && kb[j] == x;
                            assert(ks[j] == x);
                        } else {
                            assert(ks[ks.len() - 1] == k);
                        }
                    }
                },
            }
            assert(self.view_map() =~= old(self).view_map().insert(k, value));
        }
    }

    /// Remove every value.
    pub fn clear(&mut self)
        ensures
            final(self).view_map() == Map::<Seq<char>, serde_json::Value>::empty(),
    {
        self.entries = Vec::new();
        assert(self.view_map() =~= Map::<Seq<char>, serde_json::Value>::empty());
    }
}

/// The message for a key with no value.
pub open spec fn key_not_found_message(key: Seq<char>) -> Seq<char> {
    "Key '"@ + key + "' not found in memory"@
}

/// The message for an operation the memory tool does not have.
pub open spec fn invalid_operation_message(op: Seq<char>) -> Seq<char> {
    "Invalid operation '"@ + op + "'. Supported: store, retrieve"@
}

/// What one call of the memory tool answered (`r`) and did to the store
/// (`before` to `after`), given the operation, key and value its
/// arguments hold: `store` keeps `value` under `key` and succeeds with the
/// JSON string "Stored successfully";
/// `retrieve` succeeds with the value under `key`, or fails with
/// `KEY_NOT_FOUND`; any other operation fails with `INVALID_OPERATION`.
/// The result is under the tool's name, `memory`, and the call's
/// identifier.
pub open spec fn memory_answered(
    before: Map<Seq<char>, serde_json::Value>,
    after: Map<Seq<char>, serde_json::Value>,
    call_id: Seq<char>,
    operation: Seq<char>,
    key: Seq<char>,
    value: serde_json::Value,
    r: ToolResult,
) -> bool {
    &&& r.call_id@ == call_id
    &&& r.tool_name@ == "memory"@
    &&& operation == "store"@ ==> after == before.insert(key, value) && r.outcome == ToolOutcome::Success(
        json_string_value("Stored successfully"@),
    )
    &&& operation != "store"@ ==> after == before
    &&& operation == "retrieve"@ ==> if before.contains_key(key) {
        r.outcome == ToolOutcome::Success(before[key])
    } else {
        (r.outcome matches ToolOutcome::Error { code, message } && code@ == "KEY_NOT_FOUND"@ && message@
            == key_not_found_message(key))
    }
    &&& operation != "store"@ && operation != "retrieve"@ ==> (r.outcome matches ToolOutcome::Error {
        code,
        message,
    } && code@ == "INVALID_OPERATION"@ && message@ == invalid_operation_message(operation))
}

/// What the memory tool stores under a key, a later `retrieve` of that key
/// answers, leaving the store as it was.
pub proof fn lemma_retrieve_after_store(
    m0: Map<Seq<char>, serde_json::Value>,
    m1: Map<Seq<char>, serde_json::Value>,
    m2: Map<Seq<char>, serde_json::Value>,
    c1: Seq<char>,
    c2: Seq<char>,
    key: Seq<char>,
    value: serde_json::Value,
    unused: serde_json::Value,
    r1: ToolResult,
    r2: ToolResult,
)
    requires
        memory_answered(m0, m1, c1, "store"@, key, value, r1),
        memory_answered(m1, m2, c2, "retrieve"@, key, unused, r2),
    ensures
        r1.outcome == ToolOutcome::Success(json_string_value("Stored successfully"@)),
        r2.outcome == ToolOutcome::Success(value),
        m2 == m1,
{
    reveal_strlit("store");
    reveal_strlit("retrieve");
    assert("store"@.len() != "retrieve"@.len());
}

/// One call of the memory tool, given what its arguments hold (see
/// `memory_answered`).
pub fn memory_step(
    store: &mut KeyValueStore,
    call_id: &String,
    operation: &str,
    key: &str,
    value: serde_json::Value,
) -> (r: ToolResult)
    ensures
        memory_answered(old(store).view_map(), final(store).view_map(), call_id@, operation@, key@, value, r),
{
    proof {
        reveal_strlit("store");
        reveal_strlit("retrieve");
        assert("store"@.len() != "retrieve"@.len());
    }
    let op = String::from_str(operation);
    let outcome = if op == String::from_str("store") {
        store.set(String::from_str(key), value);
        ToolOutcome::Success(json_string(String::from_str("Stored successfully")))
    } else if op == String::from_str("retrieve") {
        match store.get(key) {
            Some(v) => ToolOutcome::Success(v),
            None => {
                let mut message = String::from_str("Key '");
                message.append(key);
                message.append("' not found in memory");
                ToolOutcome::Error { code: String::from_str("KEY_NOT_FOUND"), message }
            },
        }
    } else {
        let mut message = String::from_str("Invalid operation '");
        message.append(operation);
        message.append("'. Supported: store, retrieve");
        ToolOutcome::Error { code: String::from_str("INVALID_OPERATION"), message }
    };
    ToolResult { call_id: call_id.clone(), tool_name: String::from_str("memory"), outcome }
}

/// One named argument of a tool call: its value, and its text when the
/// value is a JSON string.
#[derive(Debug)]
pub struct ToolArg {
    pub name: String,
    pub text: Option<String>,
    pub value: serde_json::Value,
}

/// The named arguments of a tool call, in the order they were given; a
/// tool reads the first argument of a name.
#[derive(Debug)]
pub struct ToolArgs {
    pub fields: Vec<ToolArg>,
}

/// The first argument named `name` among `fields`.
pub open spec fn first_arg(fields: Seq<ToolArg>, name: Seq<char>) -> Option<ToolArg>
    decreases fields.len(),
{
    if fields.len() == 0 {
        None
    } else if fields[0].name@ == name {
        Some(fields[0])
    } else {
        first_arg(fields.drop_first(), name)
    }
}

/// The text of the argument named `name`: empty when there is none or its
/// value is not a string.
pub open spec fn field_text(args: ToolArgs, name: Seq<char>) -> Seq<char> {
    match first_arg(args.fields@, name) {
        Some(a) => match a.text {
            Some(t) => t@,
            None => Seq::empty(),
        },
        None => Seq::empty(),
    }
}

/// The value of the argument named `name`, if there is one.
pub open spec fn field_value(args: ToolArgs, name: Seq<char>) -> Option<serde_json::Value> {
    match first_arg(args.fields@, name) {
        Some(a) => Some(a.value),
        None => None,
    }
}

/// The slot of the first argument named `name`.
fn find_arg(args: &ToolArgs, name: &str) -> (r: Option<usize>)
    ensures
        match first_arg(args.fields@, name@) {
            Some(a) => r matches Some(i) && i < args.fields@.len() && args.fields@[i as int] == a,
            None => r is None,
        },
{
    let wanted = String::from_str(name);
    let mut found: Option<usize> = None;
    let mut i: usize = args.fields.len();
    while i > 0
        invariant
            i <= args.fields@.len(),
            wanted@ == name@,
            match first_arg(args.fields@.skip(i as int), name@) {
                Some(a) => found matches Some(j) && i <= j < args.fields@.len() && args.fields@[j as int] == a,
                None => found is None,
            },
        decreases i,
    {
        let k = i - 1;
        proof {
            let s = args.fields@.skip(k as int);
            assert(s[0] == args.fields@[k as int]);
            assert(s.drop_first() =~= args.fields@.skip(i as int));
        }
        if args.fields[k].name == wanted {
            found = Some(k);
        }
        i = k;
    }
    assert(args.fields@.skip(0) =~= args.fields@);
    found
}

/// The text of the argument named `name` (see `field_text`).
fn arg_text(args: &ToolArgs, name: &str) -> (r: String)
    ensures
        r@ == field_text(*args, name@),
{
    match find_arg(args, name) {
        Some(i) => match &args.fields[i].text {
            Some(t) => t.clone(),
            None => String::new(),
        },
        None => String::new(),
    }
}

/// One call of the memory tool with the arguments `args`: its `operation`
/// and `key` arguments are read as text (empty when absent or not text)
/// and its `value` argument as given (null when absent), then
/// `memory_step` decides.
pub fn memory_execute(store: &mut KeyValueStore, call_id: &String, args: &ToolArgs) -> (r: ToolResult)
    ensures
        exists|value: serde_json::Value|
            (field_value(*args, "value"@) matches Some(v) ==> value == v) && #[trigger] memory_answered(
                old(store).view_map(),
                final(store).view_map(),
                call_id@,
                field_text(*args, "operation"@),
                field_text(*args, "key"@),
                value,
                r,
            ),
{
    let operation = arg_text(args, "operation");
    let key = arg_text(args, "key");
    let value = match find_arg(args, "value") {
        Some(i) => args.fields[i].value.clone(),
        None => json_null(),
    };
    memory_step(store, call_id, operation.as_str(), key.as_str(), value)
}

/// The shell tool's command: the text of its first `command` argument.
/// Without one the call fails with `INVALID_ARGS`, under the tool's name,
/// `shell`, and the call's identifier.
pub fn shell_command(call_id: &String, args: &ToolArgs) -> (r: Result<String, ToolResult>)
    ensures
        match first_arg(args.fields@, "command"@) {
            Some(a) if a.text is Some => r matches Ok(c) && c@ == a.text->Some_0@,
            _ => r matches Err(res) && res.call_id@ == call_id@ && res.tool_name@ == "shell"@ && (
            res.outcome matches ToolOutcome::Error { code, message } && code@ == "INVALID_ARGS"@ && message@
                == "missing 'command' field"@),
        },
{
    match find_arg(args, "command") {
        Some(i) => match &args.fields[i].text {
            Some(t) => return Ok(t.clone()),
            None => {},
        },
        None => {},
    }
    Err(
        ToolResult {
            call_id: call_id.clone(),
            tool_name: String::from_str("shell"),
            outcome: ToolOutcome::Error {
                code: String::from_str("INVALID_ARGS"),
                message: String::from_str("missing 'command' field"),
            },
        },
    )
}

/// How a command that ran is reported when it failed: none when it exited
/// successfully; otherwise `COMMAND_ERROR` with its error output trimmed
/// (see `failure_message`).
pub fn command_failure(exit_ok: bool, stderr: &str) -> (r: Option<ToolOutcome>)
    ensures
        exit_ok ==> r is None,
        !exit_ok ==> (r matches Some(ToolOutcome::Error { code, message }) && code@ == "COMMAND_ERROR"@ && message@
            == failure_message(stderr@)),
{
    if exit_ok {
        None
    } else {
        Some(ToolOutcome::Error { code: String::from_str("COMMAND_ERROR"), message: command_failure_message(stderr) })
    }
}

} // verus!
