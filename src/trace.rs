//! Traces: metadata and a sequence of states, read from a trace document and
//! decoded state by state.
use vstd::prelude::*;

use crate::decode::{decodes_ok, DecodeError, DecodeItfValue};
use crate::value::{same_text, Value};
use crate::wire::{
    encodes, parse_json, parsed_json, record_encodes, record_from_members, record_valid, valid_wire,
    value_from_json, Json, WireError,
};

verus! {

/// Metadata of a trace.
#[derive(Debug, PartialEq, Eq)]
pub struct TraceMeta {
    pub format: Option<String>,
    pub format_description: Option<String>,
    pub source: Option<String>,
    pub description: Option<String>,
    /// Declared type of each variable.
    pub var_types: Vec<(String, String)>,
    pub timestamp: Option<u64>,
    /// Further members with text values.
    pub other: Vec<(String, String)>,
}

impl TraceMeta {
    /// Metadata with nothing in it.
    pub fn new() -> (r: TraceMeta)
        ensures
            r.format is None,
            r.format_description is None,
            r.source is None,
            r.description is None,
            r.var_types@.len() == 0,
            r.timestamp is None,
            r.other@.len() == 0,
    {
        TraceMeta {
            format: None,
            format_description: None,
            source: None,
            description: None,
            var_types: Vec::new(),
            timestamp: None,
            other: Vec::new(),
        }
    }
}

impl Default for TraceMeta {
    fn default() -> (r: TraceMeta)
        ensures
            r.format is None,
            r.format_description is None,
            r.source is None,
            r.description is None,
            r.var_types@.len() == 0,
            r.timestamp is None,
            r.other@.len() == 0,
    {
        TraceMeta::new()
    }
}

/// Metadata of one state.
#[derive(Debug, PartialEq, Eq)]
pub struct StateMeta {
    /// The position of the state in its trace, from 0.
    pub index: Option<u64>,
    /// Further members with text values.
    pub other: Vec<(String, String)>,
}

impl StateMeta {
    /// Metadata with nothing in it.
    pub fn new() -> (r: StateMeta)
        ensures
            r.index is None,
            r.other@.len() == 0,
    {
        StateMeta { index: None, other: Vec::new() }
    }
}

impl Default for StateMeta {
    fn default() -> (r: StateMeta)
        ensures
            r.index is None,
            r.other@.len() == 0,
    {
        StateMeta::new()
    }
}

/// One step of a trace: its metadata and the values of its variables.
#[derive(Debug, PartialEq, Eq)]
pub struct State<S> {
    pub meta: StateMeta,
    pub value: S,
}

/// A trace over states of type `S`.
#[derive(Debug, PartialEq, Eq)]
pub struct Trace<S> {
    pub meta: TraceMeta,
    pub params: Vec<String>,
    pub vars: Vec<String>,
    /// The state that the last one loops back to, for a lasso.
    pub loop_index: Option<u64>,
    pub states: Vec<State<S>>,
}

impl<S> Trace<S> {
    /// A trace without metadata, names or states.
    pub fn new() -> (r: Trace<S>)
        ensures
            r.meta.format is None && r.meta.format_description is None && r.meta.source is None
                && r.meta.description is None && r.meta.var_types@.len() == 0
                && r.meta.timestamp is None && r.meta.other@.len() == 0,
            r.params@.len() == 0,
            r.vars@.len() == 0,
            r.loop_index is None,
            r.states@.len() == 0,
    {
        Trace {
            meta: TraceMeta::new(),
            params: Vec::new(),
            vars: Vec::new(),
            loop_index: None,
            states: Vec::new(),
        }
    }
}

impl<S> Default for Trace<S> {
    fn default() -> (r: Trace<S>)
        ensures
            r.meta.format is None && r.meta.format_description is None && r.meta.source is None
                && r.meta.description is None && r.meta.var_types@.len() == 0
                && r.meta.timestamp is None && r.meta.other@.len() == 0,
            r.params@.len() == 0,
            r.vars@.len() == 0,
            r.loop_index is None,
            r.states@.len() == 0,
    {
        Trace::new()
    }
}

/// Why a trace could not be read.
#[derive(Debug, PartialEq, Eq)]
pub enum Error {
    /// The text is no JSON document; the parser's message.
    Json(String),
    /// The document lacks a member that a trace needs, or has it of the wrong
    /// kind; the member's name.
    Trace(String),
    /// A value in the document breaks the wire rules.
    Wire(WireError),
    /// The state at position `step` could not be decoded.
    Decode { step: usize, error: DecodeError },
    /// A value read on its own could not be decoded.
    Value(DecodeError),
}

impl State<Value> {
    /// Decodes the variables of the state into an `S`; the metadata stays.
    pub fn decode<S: DecodeItfValue>(self) -> (r: Result<State<S>, DecodeError>)
        ensures
            match r {
                Ok(s) => s.meta == self.meta && S::decodes(self.value, Ok(s.value)),
                Err(e) => S::decodes(self.value, Err(e)),
            },
    {
        let State { meta, value } = self;
        match S::decode(value) {
            Ok(v) => Ok(State { meta, value: v }),
            Err(e) => Err(e),
        }
    }
}

/// Holds when `r` is the outcome of decoding every state of `t` into an `S`,
/// in order: the trace with the same metadata, names and states decoded, or the
/// error of the first state that fails, with its position.
pub open spec fn decode_outcome<S: DecodeItfValue>(t: Trace<Value>, r: Result<Trace<S>, Error>) -> bool {
    match r {
        Ok(d) => d.meta == t.meta && d.params == t.params && d.vars == t.vars && d.loop_index
            == t.loop_index && d.states@.len() == t.states@.len() && forall|i: int|
            0 <= i < t.states@.len() ==> (#[trigger] d.states@[i]).meta == t.states@[i].meta
                && S::decodes(t.states@[i].value, Ok(d.states@[i].value)),
        Err(e) => e matches Error::Decode { step, error } && step < t.states@.len() && S::decodes(
            t.states@[step as int].value,
            Err(error),
        ) && forall|j: int| 0 <= j < step ==> decodes_ok::<S>(#[trigger] t.states@[j].value),
    }
}

impl Trace<Value> {
    /// Decodes every state, in order, into an `S`; the metadata and the names
    /// stay. The first state that fails stops the work, and the error gives its
    /// position.
    pub fn decode<S: DecodeItfValue>(self) -> (r: Result<Trace<S>, Error>)
        ensures
            decode_outcome::<S>(self, r),
    {
        let Trace { meta, params, vars, loop_index, states } = self;
        let ghost ss = states@;
        let mut rest = states;
        let mut out: Vec<State<S>> = Vec::new();
        while rest.len() > 0
            invariant
                ss == self.states@,
                out@.len() <= ss.len(),
                rest@ == ss.skip(out@.len() as int),
                forall|k: int|
                    0 <= k < out@.len() ==> (#[trigger] out@[k]).meta == ss[k].meta
                        && S::decodes(ss[k].value, Ok(out@[k].value)),
            decreases rest@.len(),
        {
            let ghost i = out@.len() as int;
            let state = rest.remove(0);
            assert(state == ss[i]);
            let step = out.len();
            match state.decode::<S>() {
                Ok(s) => {
                    out.push(s);
                    assert(rest@ =~= ss.skip(out@.len() as int));
                },
                Err(error) => {
                    assert forall|j: int| 0 <= j < i implies decodes_ok::<S>(
                        #[trigger] ss[j].value,
                    ) by {
                        assert(S::decodes(ss[j].value, Ok(out@[j].value)));
                    }
                    return Err(Error::Decode { step, error });
                },
            }
        }
        Ok(Trace { meta, params, vars, loop_index, states: out })
    }
}

/// Holds when member `i` is the first one named `key`.
pub open spec fn is_first_member(f: Seq<(String, Json)>, key: Seq<char>, i: int) -> bool {
    &&& 0 <= i < f.len()
    &&& f[i].0@ == key
    &&& forall|j: int| 0 <= j < i ==> f[j].0@ != key
}

/// The value of the first member named `key`, if any.
pub open spec fn json_member(f: Seq<(String, Json)>, key: Seq<char>) -> Option<Json> {
    if exists|i: int| is_first_member(f, key, i) {
        Some(f[choose|i: int| is_first_member(f, key, i)].1)
    } else {
        None
    }
}

proof fn lemma_first_member(f: Seq<(String, Json)>, key: Seq<char>, i: int)
    requires
        is_first_member(f, key, i),
    ensures
        json_member(f, key) == Some(f[i].1),
{
    let j = choose|j: int| is_first_member(f, key, j);
    assert(is_first_member(f, key, j));
    if j < i {
        assert(f[j].0@ != key);
    }
    if i < j {
        assert(f[i].0@ != key);
    }
}

/// The position of the first member named `key`.
fn find_member(f: &Vec<(String, Json)>, key: &str) -> (r: Option<usize>)
    ensures
        match r {
            Some(i) => is_first_member(f@, key@, i as int) && json_member(f@, key@) == Some(
                f@[i as int].1,
            ),
            None => json_member(f@, key@) is None,
        },
{
    let mut i: usize = 0;
    while i < f.len()
        invariant
            i <= f@.len(),
            forall|j: int| 0 <= j < i ==> f@[j].0@ != key@,
        decreases f@.len() - i,
    {
        if same_text(f[i].0.as_str(), key) {
            proof {
                lemma_first_member(f@, key@, i as int);
            }
            return Some(i);
        }
        i = i + 1;
    }
    None
}

/// The text of member `key`, when it is a string.
fn string_member(f: &Vec<(String, Json)>, key: &str) -> (r: Option<String>)
    ensures
        r == match json_member(f@, key@) {
            Some(Json::String(s)) => Some(s),
            _ => None::<String>,
        },
{
    match find_member(f, key) {
        Some(i) => match &f[i].1 {
            Json::String(s) => Some(s.clone()),
            _ => None,
        },
        None => None,
    }
}

/// The number of member `key`, when it is a non-negative integer.
fn count_member(f: &Vec<(String, Json)>, key: &str) -> (r: Option<u64>)
    ensures
        r == match json_member(f@, key@) {
            Some(Json::Number(Some(n))) => if n >= 0 {
                Some(n as u64)
            } else {
                None::<u64>
            },
            _ => None::<u64>,
        },
{
    match find_member(f, key) {
        Some(i) => match &f[i].1 {
            Json::Number(Some(n)) => {
                if *n >= 0 {
                    Some(*n as u64)
                } else {
                    None
                }
            },
            _ => None,
        },
        None => None,
    }
}

/// The members of `f` whose values are strings, in order, leaving out `skip`.
fn text_members(f: &Vec<(String, Json)>, skip: &[&str]) -> (r: Vec<(String, String)>) {
    let mut out: Vec<(String, String)> = Vec::new();
    let mut i: usize = 0;
    while i < f.len()
        invariant
            i <= f@.len(),
        decreases f@.len() - i,
    {
        let mut skipped = false;
        let mut k: usize = 0;
        while k < skip.len()
            invariant
                i < f@.len(),
                k <= skip@.len(),
            decreases skip@.len() - k,
        {
            if same_text(f[i].0.as_str(), skip[k]) {
                skipped = true;
            }
            k = k + 1;
        }
        if !skipped {
            match &f[i].1 {
                Json::String(s) => {
                    out.push((f[i].0.clone(), s.clone()));
                },
                _ => {},
            }
        }
        i = i + 1;
    }
    out
}

/// Holds when member `key` is absent or an array of strings.
pub open spec fn names_ok(f: Seq<(String, Json)>, key: Seq<char>) -> bool {
    match json_member(f, key) {
        None => true,
        Some(Json::Array(a)) => forall|i: int| 0 <= i < a@.len() ==> (#[trigger] a@[i]) is String,
        Some(_) => false,
    }
}

/// The names of a member that is an array of strings; an absent member is an
/// empty list.
fn name_list(f: &Vec<(String, Json)>, key: &str) -> (r: Result<Vec<String>, Error>)
    ensures
        r is Ok <==> names_ok(f@, key@),
        r matches Err(e) ==> e is Trace,
        match json_member(f@, key@) {
            None => r matches Ok(l) ==> l@.len() == 0,
            Some(Json::Array(a)) => r matches Ok(l) ==> l@.len() == a@.len() && forall|i: int|
                0 <= i < a@.len() ==> (#[trigger] a@[i] matches Json::String(s) && l@[i]@ == s@),
            Some(_) => true,
        },
{
    match find_member(f, key) {
        None => Ok(Vec::new()),
        Some(m) => match &f[m].1 {
            Json::Array(a) => {
                let mut out: Vec<String> = Vec::new();
                let mut i: usize = 0;
                while i < a.len()
                    invariant
                        json_member(f@, key@) == Some(f@[m as int].1),
                        f@[m as int].1 == Json::Array(*a),
                        i <= a@.len(),
                        out@.len() == i,
                        forall|k: int|
                            0 <= k < i ==> (#[trigger] a@[k] matches Json::String(s) && out@[k]@
                                == s@),
                    decreases a@.len() - i,
                {
                    match &a[i] {
                        Json::String(s) => {
                            out.push(s.clone());
                        },
                        _ => {
                            assert(!(a@[i as int] is String));
                            return Err(Error::Trace(String::from_str(key)));
                        },
                    }
                    i = i + 1;
                }
                Ok(out)
            },
            _ => Err(Error::Trace(String::from_str(key))),
        },
    }
}

/// The trace metadata that a `#meta` object holds.
fn trace_meta(f: &Vec<(String, Json)>) -> (r: TraceMeta)
    ensures
        r.format == match json_member(f@, "format"@) {
            Some(Json::String(s)) => Some(s),
            _ => None::<String>,
        },
        r.format_description == match json_member(f@, "format-description"@) {
            Some(Json::String(s)) => Some(s),
            _ => None::<String>,
        },
        r.source == match json_member(f@, "source"@) {
            Some(Json::String(s)) => Some(s),
            _ => None::<String>,
        },
        r.description == match json_member(f@, "description"@) {
            Some(Json::String(s)) => Some(s),
            _ => None::<String>,
        },
        r.timestamp == match json_member(f@, "timestamp"@) {
            Some(Json::Number(Some(n))) => if n >= 0 {
                Some(n as u64)
            } else {
                None::<u64>
            },
            _ => None::<u64>,
        },
{
    let var_types = match find_member(f, "varTypes") {
        Some(i) => match &f[i].1 {
            Json::Object(vt) => text_members(vt, &[]),
            _ => Vec::new(),
        },
        None => Vec::new(),
    };
    let known = [
        "format",
        "format-description",
        "source",
        "description",
        "varTypes",
        "timestamp",
    ];
    TraceMeta {
        format: string_member(f, "format"),
        format_description: string_member(f, "format-description"),
        source: string_member(f, "source"),
        description: string_member(f, "description"),
        var_types,
        timestamp: count_member(f, "timestamp"),
        other: text_members(f, &known),
    }
}

pub open spec fn meta_key() -> Seq<char> {
    seq!['#', 'm', 'e', 't', 'a']
}

/// Holds of a member of a state object that binds a variable: all but `#meta`.
pub open spec fn binding_member() -> spec_fn((String, Json)) -> bool {
    |m: (String, Json)| m.0@ != meta_key()
}

/// The members of a state object that bind variables.
pub open spec fn bindings(f: Seq<(String, Json)>) -> Seq<(String, Json)> {
    f.filter(binding_member())
}

/// Holds of the members of a state object that can be read: every `#meta`
/// member is an object, and the bindings are plain fields in wire form.
pub open spec fn state_ok(f: Seq<(String, Json)>) -> bool {
    &&& forall|i: int| 0 <= i < f.len() && (#[trigger] f[i]).0@ == meta_key() ==> f[i].1 is Object
    &&& record_valid(bindings(f))
}

/// Reads one state object: its `#meta` member (if any) and its bindings.
fn state_from_members(f: Vec<(String, Json)>) -> (r: Result<State<Value>, Error>)
    ensures
        r is Ok <==> state_ok(f@),
        r matches Err(e) ==> e is Trace || e is Wire,
        r matches Ok(s) ==> (s.value matches Value::Record(rec) && record_encodes(
            rec,
            bindings(f@),
        )),
        r matches Ok(s) ==> s.meta.index == state_index(f@),
{
    proof {
        reveal_strlit("#meta");
        assert("#meta"@ =~= meta_key());
    }
    let ghost fs = f@;
    let mut rest = f;
    let mut bound: Vec<(String, Json)> = Vec::new();
    let mut meta = StateMeta::new();
    let mut seen = false;
    let mut taken: usize = 0;
    let total = rest.len();
    while rest.len() > 0
        invariant
            taken <= fs.len(),
            fs.len() == total,
            "#meta"@ == meta_key(),
            taken + rest@.len() == fs.len(),
            rest@ == fs.skip(taken as int),
            fs == f@,
            bound@ == fs.take(taken as int).filter(binding_member()),
            forall|k: int|
                0 <= k < taken && (#[trigger] fs[k]).0@ == meta_key() ==> fs[k].1 is Object,
            !seen ==> forall|k: int| 0 <= k < taken ==> (#[trigger] fs[k]).0@ != meta_key(),
            !seen ==> meta.index is None,
            seen ==> meta.index == state_index(fs),
        decreases rest@.len(),
    {
        let member = rest.remove(0);
        assert(member == fs[taken as int]);
        proof {
            assert(fs.take(taken + 1).drop_last() =~= fs.take(taken as int));
            assert(fs.take(taken + 1).last() == fs[taken as int]);
            reveal(Seq::filter);
            assert(fs.take(taken + 1).filter(binding_member()) == if binding_member()(member) {
                fs.take(taken as int).filter(binding_member()).push(member)
            } else {
                fs.take(taken as int).filter(binding_member())
            });
        }
        let (name, v) = member;
        if same_text(name.as_str(), "#meta") {
            assert(!binding_member()(member));
            match v {
                Json::Object(mf) => {
                    if !seen {
                        proof {
                            lemma_first_member(fs, meta_key(), taken as int);
                        }
                        meta = StateMeta {
                            index: count_member(&mf, "index"),
                            other: text_members(&mf, &["index"]),
                        };
                        seen = true;
                    }
                },
                _ => {
                    assert(fs[taken as int].0@ == meta_key() && !(fs[taken as int].1 is Object));
                    return Err(Error::Trace(name));
                },
            }
        } else {
            assert(binding_member()(member));
            bound.push((name, v));
        }
        taken = taken + 1;
        assert(rest@ =~= fs.skip(taken as int));
    }
    assert(fs.take(taken as int) =~= fs);
    proof {
        if !seen {
            assert(!exists|i: int| is_first_member(fs, meta_key(), i));
        }
    }
    match record_from_members(&bound) {
        Ok(rec) => Ok(State { meta, value: Value::Record(rec) }),
        Err(e) => Err(Error::Wire(e)),
    }
}

/// The index that the first `#meta` member of a state object gives, if any.
pub open spec fn state_index(f: Seq<(String, Json)>) -> Option<u64> {
    match json_member(f, meta_key()) {
        Some(Json::Object(mf)) => count_of(json_member(mf@, "index"@)),
        _ => None,
    }
}

/// The text of a member, when it is a string.
pub open spec fn text_of(m: Option<Json>) -> Option<String> {
    match m {
        Some(Json::String(s)) => Some(s),
        _ => None,
    }
}

/// The number of a member, when it is a non-negative integer.
pub open spec fn count_of(m: Option<Json>) -> Option<u64> {
    match m {
        Some(Json::Number(Some(n))) => if n >= 0 {
            Some(n as u64)
        } else {
            None
        },
        _ => None,
    }
}

/// Holds when `l` holds the strings of member `key` of `f`, in order; an
/// absent member holds none.
pub open spec fn names_match(f: Seq<(String, Json)>, key: Seq<char>, l: Seq<String>) -> bool {
    match json_member(f, key) {
        None => l.len() == 0,
        Some(Json::Array(a)) => l.len() == a@.len() && forall|i: int|
            0 <= i < a@.len() ==> (#[trigger] a@[i] matches Json::String(s) && l[i]@ == s@),
        Some(_) => false,
    }
}

/// Holds when `m` carries what the `#meta` members `mf` state.
pub open spec fn meta_matches(mf: Seq<(String, Json)>, m: TraceMeta) -> bool {
    &&& m.format == text_of(json_member(mf, "format"@))
    &&& m.format_description == text_of(json_member(mf, "format-description"@))
    &&& m.source == text_of(json_member(mf, "source"@))
    &&& m.description == text_of(json_member(mf, "description"@))
    &&& m.timestamp == count_of(json_member(mf, "timestamp"@))
}

/// Holds when `t` is the trace that the document `j` holds: its metadata,
/// names, loop index, and for each state object a record of its bindings.
pub open spec fn reads_trace(j: Json, t: Trace<Value>) -> bool {
    j matches Json::Object(f) && (json_member(f@, "#meta"@) matches Some(Json::Object(mf))
        && meta_matches(mf@, t.meta)) && names_match(f@, "params"@, t.params@) && names_match(
        f@,
        "vars"@,
        t.vars@,
    ) && t.loop_index == count_of(json_member(f@, "loop"@)) && (json_member(
        f@,
        "states"@,
    ) matches Some(Json::Array(ss)) && t.states@.len() == ss@.len() && forall|i: int|
        0 <= i < ss@.len() ==> (#[trigger] ss@[i] matches Json::Object(sf) && (
        t.states@[i].value matches Value::Record(rec) && record_encodes(rec, bindings(sf@)))
            && t.states@[i].meta.index == state_index(sf@)))
}

/// Holds when a document can be read as a trace: an object whose `#meta` is
/// an object, whose `params` and `vars` are absent or arrays of strings, and
/// whose `states` is an array of state objects that can be read.
pub open spec fn is_trace_document(j: Json) -> bool {
    j matches Json::Object(f) && (json_member(f@, "#meta"@) matches Some(m) && m is Object)
        && names_ok(f@, "params"@) && names_ok(f@, "vars"@) && (json_member(f@, "states"@) matches Some(
        sj,
    ) && (sj matches Json::Array(ss) && forall|i: int|
        0 <= i < ss@.len() ==> (#[trigger] ss@[i] matches Json::Object(sf) && state_ok(sf@))))
}

/// Reads a trace document: an object with `#meta`, optional `params`, `vars`
/// and `loop`, and `states`, an array of state objects whose members other than
/// `#meta` bind the state's variables.
pub fn trace_from_json(j: Json) -> (r: Result<Trace<Value>, Error>)
    ensures
        r is Ok <==> is_trace_document(j),
        r matches Ok(t) ==> reads_trace(j, t),
        r matches Err(e) ==> e is Trace || e is Wire,
{
    let ghost whole = j;
    match j {
        Json::Object(f) => {
            let meta = match find_member(&f, "#meta") {
                Some(i) => match &f[i].1 {
                    Json::Object(mf) => trace_meta(mf),
                    _ => {
                        return Err(Error::Trace(String::from_str("#meta")));
                    },
                },
                None => {
                    return Err(Error::Trace(String::from_str("#meta")));
                },
            };
            let params = name_list(&f, "params")?;
            let vars = name_list(&f, "vars")?;
            let loop_index = count_member(&f, "loop");
            let ghost f0 = f@;
            let si = match find_member(&f, "states") {
                Some(i) => i,
                None => {
                    return Err(Error::Trace(String::from_str("states")));
                },
            };
            let mut members = f;
            let (_, sj) = members.remove(si);
            assert(json_member(f0, "states"@) == Some(sj));
            match sj {
                Json::Array(ss) => {
                    let ghost items = ss@;
                    let ghost ss0 = ss;
                    let mut rest = ss;
                    let mut states: Vec<State<Value>> = Vec::new();
                    while rest.len() > 0
                        invariant
                            whole == j,
                            whole matches Json::Object(fv) && fv@ == f0,
                            json_member(f0, "#meta"@) matches Some(m) && m is Object,
                            names_ok(f0, "params"@),
                            names_ok(f0, "vars"@),
                            json_member(f0, "states"@) == Some(Json::Array(ss0)),
                            ss0@ == items,
                            states@.len() <= items.len(),
                            rest@ == items.skip(states@.len() as int),
                            forall|k: int|
                                0 <= k < states@.len() ==> (#[trigger] items[k] matches Json::Object(
                                    sf,
                                ) && state_ok(sf@)),
                            forall|k: int|
                                0 <= k < states@.len() ==> (#[trigger] items[k] matches Json::Object(
                                    sf,
                                ) && (states@[k].value matches Value::Record(rec)
                                    && record_encodes(rec, bindings(sf@)))
                                    && states@[k].meta.index == state_index(sf@)),
                        decreases rest@.len(),
                    {
                        let ghost k = states@.len() as int;
                        let item = rest.remove(0);
                        assert(item == items[k]);
                        match item {
                            Json::Object(sf) => {
                                let s = match state_from_members(sf) {
                                    Ok(s) => s,
                                    Err(e) => {
                                        assert(!(items[k] matches Json::Object(g) && state_ok(g@)));
                                        return Err(e);
                                    },
                                };
                                states.push(s);
                                assert(rest@ =~= items.skip(states@.len() as int));
                            },
                            _ => {
                                assert(!(items[k] is Object));
                                return Err(Error::Trace(String::from_str("states")));
                            },
                        }
                    }
                    Ok(Trace { meta, params, vars, loop_index, states })
                },
                _ => Err(Error::Trace(String::from_str("states"))),
            }
        },
        _ => Err(Error::Trace(String::from_str("#meta"))),
    }
}

/// Reads a trace document from JSON text.
pub fn trace_from_text(text: &str) -> (r: Result<Trace<Value>, Error>)
    ensures
        match parsed_json(text@) {
            None => r matches Err(e) && e is Json,
            Some(j) => (r is Ok <==> is_trace_document(j)) && (r matches Ok(t) ==> reads_trace(j, t))
                && (r matches Err(e) ==> e is Trace || e is Wire),
        },
{
    match parse_json(text) {
        Ok(j) => trace_from_json(j),
        Err(message) => Err(Error::Json(message)),
    }
}

/// Reads a trace document from JSON text and decodes every state into an `S`.
pub fn trace_from_str<S: DecodeItfValue>(text: &str) -> (r: Result<Trace<S>, Error>)
    ensures
        match parsed_json(text@) {
            None => r matches Err(e) && e is Json,
            Some(j) => if is_trace_document(j) {
                exists|t: Trace<Value>| reads_trace(j, t) && decode_outcome::<S>(t, r)
            } else {
                r matches Err(e) && (e is Trace || e is Wire)
            },
        },
{
    let t = trace_from_text(text)?;
    let ghost read = t;
    let r = t.decode();
    assert(decode_outcome::<S>(read, r));
    r
}

/// Reads a JSON document from text.
pub fn json_from_str(text: &str) -> (r: Result<Json, Error>)
    ensures
        match parsed_json(text@) {
            Some(j) => r == Ok::<Json, Error>(j),
            None => r is Err && r->Err_0 is Json,
        },
{
    match parse_json(text) {
        Ok(j) => Ok(j),
        Err(message) => Err(Error::Json(message)),
    }
}

/// Reads a value in wire form from JSON text and decodes it into an `S`.
pub fn from_str<S: DecodeItfValue>(text: &str) -> (r: Result<S, Error>)
    ensures
        match parsed_json(text@) {
            None => r is Err && r->Err_0 is Json,
            Some(j) => if !valid_wire(j) {
                r is Err && r->Err_0 is Wire
            } else {
                exists|v: Value|
                    encodes(v, j) && match r {
                        Ok(s) => S::decodes(v, Ok(s)),
                        Err(e) => e matches Error::Value(error) && S::decodes(v, Err(error)),
                    }
            },
        },
{
    let j = json_from_str(text)?;
    let v = match value_from_json(&j) {
        Ok(v) => v,
        Err(e) => {
            return Err(Error::Wire(e));
        },
    };
    match S::decode(v) {
        Ok(s) => Ok(s),
        Err(error) => Err(Error::Value(error)),
    }
}

} // verus!
