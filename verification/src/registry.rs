//! Tool registry: sorted by name, and frozen once its list has become part of the
//! stable prefix.

use crate::decimal::{integral, is_integral};
use crate::json::{Json, JsonV, Number, NumberV, jsons, lemma_view, member, members, same, text_of};
use crate::message::{array, opt_string};
use crate::text::{
    before, is_before, join, joined, lemma_before_irreflexive, lemma_before_total,
    lemma_before_transitive, list_contains, str_eq, strings,
};
use vstd::prelude::*;
use vstd::string::*;

verus! {

/// What the registry holds of a tool: its name, the JSON schema of its arguments,
/// and its entry in the `tools` array of a request.
#[derive(Debug)]
pub struct ToolSpec {
    pub name: String,
    pub schema: Json,
    pub openai: Json,
}

pub struct ToolSpecV {
    pub name: Seq<char>,
    pub schema: JsonV,
    pub openai: JsonV,
}

impl View for ToolSpec {
    type V = ToolSpecV;

    open spec fn view(&self) -> ToolSpecV {
        ToolSpecV { name: self.name@, schema: self.schema@, openai: self.openai@ }
    }
}

impl ToolSpec {
    pub fn copy(&self) -> (r: ToolSpec)
        ensures
            r@ == self@,
    {
        ToolSpec { name: self.name.clone(), schema: self.schema.copy(), openai: self.openai.copy() }
    }
}

pub open spec fn specs_view(v: Seq<ToolSpec>) -> Seq<ToolSpecV> {
    Seq::new(v.len(), |i: int| v[i]@)
}

#[derive(Debug)]
pub enum ArgError {
    UnknownTool(String),
    Missing(String),
    Type(String, String),
    Enum(String, String),
    NotObject,
}

pub enum ArgErrorV {
    UnknownTool(Seq<char>),
    Missing(Seq<char>),
    Type(Seq<char>, Seq<char>),
    Enum(Seq<char>, Seq<char>),
    NotObject,
}

impl View for ArgError {
    type V = ArgErrorV;

    open spec fn view(&self) -> ArgErrorV {
        match self {
            ArgError::UnknownTool(a) => ArgErrorV::UnknownTool(a@),
            ArgError::Missing(a) => ArgErrorV::Missing(a@),
            ArgError::Type(a, b) => ArgErrorV::Type(a@, b@),
            ArgError::Enum(a, b) => ArgErrorV::Enum(a@, b@),
            ArgError::NotObject => ArgErrorV::NotObject,
        }
    }
}

impl ArgErrorV {
    pub open spec fn message(self) -> Seq<char> {
        match self {
            ArgErrorV::UnknownTool(a) => "unknown tool `"@ + a + "`"@,
            ArgErrorV::Missing(a) => "missing required argument `"@ + a + "`"@,
            ArgErrorV::Type(a, b) => "argument `"@ + a + "` should be "@ + b,
            ArgErrorV::Enum(a, b) => "argument `"@ + a + "` must be one of "@ + b,
            ArgErrorV::NotObject => "arguments must be a JSON object"@,
        }
    }
}

impl ArgError {
    /// The message of the error.
    pub fn to_string(&self) -> (r: String)
        ensures
            r@ == self@.message(),
    {
        match self {
            ArgError::UnknownTool(a) => "unknown tool `".to_owned().concat(a.as_str()).concat("`"),
            ArgError::Missing(a) => "missing required argument `".to_owned().concat(a.as_str()).concat("`"),
            ArgError::Type(a, b) => "argument `".to_owned().concat(a.as_str()).concat("` should be ").concat(
                b.as_str(),
            ),
            ArgError::Enum(a, b) => "argument `".to_owned().concat(a.as_str()).concat("` must be one of ").concat(
                b.as_str(),
            ),
            ArgError::NotObject => "arguments must be a JSON object".to_owned(),
        }
    }
}

// ---------------------------------------------------------------- validation

/// The first required name from place `i` on whose argument is absent or null.
/// Entries that are no strings are passed over.
pub open spec fn first_missing(req: Seq<JsonV>, obj: Seq<(Seq<char>, JsonV)>, i: int) -> Option<Seq<char>>
    decreases req.len() - i,
{
    if i < 0 || i >= req.len() {
        None
    } else {
        match req[i].str() {
            Some(r) => match member(obj, r) {
                Some(v) => if v is Null {
                    Some(r)
                } else {
                    first_missing(req, obj, i + 1)
                },
                None => Some(r),
            },
            None => first_missing(req, obj, i + 1),
        }
    }
}

/// The strings among the first `n` items.
pub open spec fn strings_among(a: Seq<JsonV>, n: nat) -> Seq<Seq<char>>
    decreases n,
{
    if n == 0 || n > a.len() {
        Seq::empty()
    } else {
        match a[n - 1].str() {
            Some(s) => strings_among(a, (n - 1) as nat).push(s),
            None => strings_among(a, (n - 1) as nat),
        }
    }
}

/// The types that a property's schema names.
pub open spec fn named_types(ps: JsonV) -> Seq<Seq<char>> {
    match ps.get("type"@) {
        Some(JsonV::Str(s)) => seq![s],
        Some(JsonV::Array(a)) => strings_among(a, a.len()),
        _ => Seq::empty(),
    }
}

/// The value is of the type of that name; a name that is not known fits everything.
pub open spec fn fits_type(t: Seq<char>, v: JsonV) -> bool {
    if t == "string"@ {
        v is Str
    } else if t == "integer"@ {
        match v {
            JsonV::Number(NumberV::Float(t)) => integral(t),
            JsonV::Number(_) => true,
            _ => false,
        }
    } else if t == "number"@ {
        v is Number
    } else if t == "boolean"@ {
        v is Bool
    } else if t == "array"@ {
        v is Array
    } else if t == "object"@ {
        v is Object
    } else if t == "null"@ {
        v is Null
    } else {
        true
    }
}

/// The value is of one of the types.
pub open spec fn fits_one(types: Seq<Seq<char>>, v: JsonV) -> bool {
    exists|i: int| 0 <= i < types.len() && fits_type(#[trigger] types[i], v)
}

/// The value is one of the items.
pub open spec fn is_one_of(items: Seq<JsonV>, v: JsonV) -> bool {
    exists|i: int| 0 <= i < items.len() && same(#[trigger] items[i], v)
}

/// What is wrong with one argument, of which `ps` is the schema: its type, or that
/// it is none of the values that are listed. A null argument counts as absent.
pub open spec fn argument_error(ps: JsonV, key: Seq<char>, v: JsonV) -> Option<ArgErrorV> {
    let types = named_types(ps);
    if v is Null {
        None
    } else if types.len() > 0 && !fits_one(types, v) {
        Some(ArgErrorV::Type(key, joined(types, "|"@)))
    } else {
        match ps.get("enum"@) {
            Some(JsonV::Array(en)) => if is_one_of(en, v) {
                None
            } else {
                Some(ArgErrorV::Enum(key, text_of(JsonV::Array(en))))
            },
            _ => None,
        }
    }
}

/// The first argument from place `i` on that is wrong. Arguments that the schema
/// does not list are passed over.
pub open spec fn first_argument_error(
    props: Seq<(Seq<char>, JsonV)>,
    obj: Seq<(Seq<char>, JsonV)>,
    path: Seq<char>,
    i: int,
) -> Option<ArgErrorV>
    decreases obj.len() - i,
{
    if i < 0 || i >= obj.len() {
        None
    } else {
        let rest = first_argument_error(props, obj, path, i + 1);
        match member(props, obj[i].0) {
            None => rest,
            Some(ps) => match argument_error(ps, path + obj[i].0, obj[i].1) {
                Some(e) => Some(e),
                None => rest,
            },
        }
    }
}

/// What is wrong with the arguments of a call: they are no object; else the first
/// required one that is missing; else the first of a wrong type or value.
pub open spec fn arguments_error(schema: JsonV, args: JsonV, path: Seq<char>) -> Option<ArgErrorV> {
    match args {
        JsonV::Object(obj) => {
            let missing = match schema.get("required"@) {
                Some(JsonV::Array(req)) => first_missing(req, obj, 0),
                _ => None,
            };
            match missing {
                Some(r) => Some(ArgErrorV::Missing(path + r)),
                None => match schema.get("properties"@) {
                    Some(JsonV::Object(props)) => first_argument_error(props, obj, path, 0),
                    _ => None,
                },
            }
        },
        _ => Some(ArgErrorV::NotObject),
    }
}

/// A check's result by its view: none where it passed.
pub open spec fn check_view(r: Result<(), ArgError>) -> Option<ArgErrorV> {
    match r {
        Ok(_) => None,
        Err(e) => Some(e@),
    }
}

fn find_missing(req: &Vec<Json>, obj: &Json) -> (r: Option<String>)
    requires
        obj@ is Object,
    ensures
        opt_string(r) == first_missing(jsons(req@), obj@->Object_0, 0),
{
    let mut i: usize = 0;
    let ghost rv = jsons(req@);
    while i < req.len()
        invariant
            i <= req.len(),
            obj@ is Object,
            rv == jsons(req@),
            first_missing(rv, obj@->Object_0, 0) == first_missing(rv, obj@->Object_0, i as int),
        decreases req.len() - i,
    {
        assert(rv[i as int] == req@[i as int]@);
        if let Some(name) = req[i].as_str() {
            match obj.get(name) {
                Some(v) => {
                    if let Json::Null = v {
                        return Some(name.to_owned());
                    }
                },
                None => {
                    return Some(name.to_owned());
                },
            }
        }
        i += 1;
    }
    None
}

fn types_in(ps: &Json) -> (r: Vec<String>)
    ensures
        strings(r@) == named_types(ps@),
{
    let mut out: Vec<String> = Vec::new();
    match ps.get("type") {
        Some(t) => {
            proof {
                lemma_view(*t);
            }
            match t {
                Json::Str(s) => {
                    out.push(s.clone());
                    assert(strings(out@) =~= seq![s@]);
                },
                Json::Array(a) => {
                    let mut i: usize = 0;
                    assert(strings(out@) =~= Seq::empty());
                    while i < a.len()
                        invariant
                            i <= a.len(),
                            strings(out@) == strings_among(jsons(a@), i as nat),
                        decreases a.len() - i,
                    {
                        assert(jsons(a@)[i as int] == a@[i as int]@);
                        let ghost before = out@;
                        if let Some(s) = a[i].as_str() {
                            out.push(s.to_owned());
                            assert(strings(out@) =~= strings(before).push(s@));
                        }
                        i += 1;
                    }
                },
                _ => {
                    assert(strings(out@) =~= Seq::empty());
                },
            }
        },
        None => {
            assert(strings(out@) =~= Seq::empty());
        },
    }
    out
}

fn is_of_type(t: &str, v: &Json) -> (r: bool)
    ensures
        r == fits_type(t@, v@),
{
    if str_eq(t, "string") {
        matches!(v, Json::Str(_))
    } else if str_eq(t, "integer") {
        match v {
            Json::Number(Number::Float(t)) => is_integral(t.as_str()),
            Json::Number(_) => true,
            _ => false,
        }
    } else if str_eq(t, "number") {
        matches!(v, Json::Number(_))
    } else if str_eq(t, "boolean") {
        matches!(v, Json::Bool(_))
    } else if str_eq(t, "array") {
        matches!(v, Json::Array(_))
    } else if str_eq(t, "object") {
        matches!(v, Json::Object(_))
    } else if str_eq(t, "null") {
        matches!(v, Json::Null)
    } else {
        true
    }
}

fn is_of_one(types: &Vec<String>, v: &Json) -> (r: bool)
    ensures
        r == fits_one(strings(types@), v@),
{
    let mut i: usize = 0;
    while i < types.len()
        invariant
            i <= types.len(),
            forall|k: int| 0 <= k < i ==> !fits_type(#[trigger] strings(types@)[k], v@),
        decreases types.len() - i,
    {
        if is_of_type(types[i].as_str(), v) {
            assert(fits_type(strings(types@)[i as int], v@));
            return true;
        }
        i += 1;
    }
    false
}

fn contains_value(items: &Vec<Json>, v: &Json) -> (r: bool)
    ensures
        r == is_one_of(jsons(items@), v@),
{
    let mut i: usize = 0;
    while i < items.len()
        invariant
            i <= items.len(),
            forall|k: int| 0 <= k < i ==> !same(#[trigger] jsons(items@)[k], v@),
        decreases items.len() - i,
    {
        if items[i].same_as(v) {
            assert(same(jsons(items@)[i as int], v@));
            return true;
        }
        i += 1;
    }
    false
}

fn check_argument(ps: &Json, key: String, v: &Json) -> (r: Result<(), ArgError>)
    ensures
        check_view(r) == argument_error(ps@, key@, v@),
{
    proof {
        lemma_view(*v);
    }
    if let Json::Null = v {
        return Ok(());
    }
    let types = types_in(ps);
    if types.len() > 0 && !is_of_one(&types, v) {
        return Err(ArgError::Type(key, join(&types, "|")));
    }
    if let Some(en) = ps.get("enum") {
        proof {
            lemma_view(*en);
        }
        if let Json::Array(items) = en {
            if !contains_value(items, v) {
                return Err(ArgError::Enum(key, en.to_text()));
            }
        }
    }
    Ok(())
}

/// Checks arguments against a schema: required keys are there, basic types fit, and
/// listed values are kept to.
pub fn validate_against(schema: &Json, args: &Json, path: &str) -> (r: Result<(), ArgError>)
    ensures
        check_view(r) == arguments_error(schema@, args@, path@),
{
    proof {
        lemma_view(*args);
    }
    let obj = match args {
        Json::Object(m) => m,
        _ => {
            return Err(ArgError::NotObject);
        },
    };
    if let Some(req) = schema.get("required") {
        proof {
            lemma_view(*req);
        }
        if let Json::Array(items) = req {
            if let Some(name) = find_missing(items, args) {
                return Err(ArgError::Missing(path.to_owned().concat(name.as_str())));
            }
        }
    }
    let props = match schema.get("properties") {
        Some(p) => p,
        None => {
            return Ok(());
        },
    };
    proof {
        lemma_view(*props);
    }
    match props {
        Json::Object(_) => {},
        _ => {
            return Ok(());
        },
    }
    let ghost pv = props@->Object_0;
    let ghost ov = members(obj@);
    let mut i: usize = 0;
    while i < obj.len()
        invariant
            i <= obj.len(),
            props@ == JsonV::Object(pv),
            ov == members(obj@),
            args@ == JsonV::Object(ov),
            arguments_error(schema@, args@, path@) == first_argument_error(pv, ov, path@, i as int),
        decreases obj.len() - i,
    {
        assert(ov[i as int] == (obj@[i as int].0@, obj@[i as int].1@));
        let (k, v) = (&obj[i].0, &obj[i].1);
        if let Some(ps) = props.get(k.as_str()) {
            let key = path.to_owned().concat(k.as_str());
            match check_argument(ps, key, v) {
                Ok(_) => {},
                Err(e) => {
                    return Err(e);
                },
            }
        }
        i += 1;
    }
    Ok(())
}

// ---------------------------------------------------------------- the registry

pub struct ToolRegistry {
    tools: Vec<ToolSpec>,
    frozen: Option<Json>,
}

/// The tools in the order of their names, and the `tools` array once it is frozen.
pub struct RegistryV {
    pub tools: Seq<ToolSpecV>,
    pub frozen: Option<JsonV>,
}

impl View for ToolRegistry {
    type V = RegistryV;

    closed spec fn view(&self) -> RegistryV {
        RegistryV {
            tools: specs_view(self.tools@),
            frozen: match self.frozen {
                Some(j) => Some(j@),
                None => None,
            },
        }
    }
}

/// The names ascend, so that none occurs twice.
pub open spec fn sorted(tools: Seq<ToolSpecV>) -> bool {
    forall|i: int, j: int| 0 <= i < j < tools.len() ==> before((#[trigger] tools[i]).name, (#[trigger] tools[j]).name)
}

/// The tools keep to a test of their names.
pub open spec fn kept(tools: Seq<ToolSpecV>, names: Seq<Seq<char>>, want: bool, n: nat) -> Seq<ToolSpecV>
    decreases n,
{
    if n == 0 || n > tools.len() {
        Seq::empty()
    } else if names.contains(tools[n - 1].name) == want {
        kept(tools, names, want, (n - 1) as nat).push(tools[n - 1])
    } else {
        kept(tools, names, want, (n - 1) as nat)
    }
}

/// The first tool from `i` on with the given name.
pub open spec fn tool_from(tools: Seq<ToolSpecV>, name: Seq<char>, i: int) -> Option<ToolSpecV>
    decreases tools.len() - i,
{
    if i < 0 || i >= tools.len() {
        None
    } else if tools[i].name == name {
        Some(tools[i])
    } else {
        tool_from(tools, name, i + 1)
    }
}

/// What is wrong with the arguments of a call, where something is.
pub open spec fn call_error(tools: Seq<ToolSpecV>, name: Seq<char>, args: JsonV) -> Option<ArgErrorV> {
    match tool_from(tools, name, 0) {
        Some(t) => arguments_error(t.schema, args, ""@),
        None => Some(ArgErrorV::UnknownTool(name)),
    }
}

pub open spec fn names_of(tools: Seq<ToolSpecV>) -> Seq<Seq<char>> {
    Seq::new(tools.len(), |i: int| tools[i].name)
}

/// A tool of that name is there.
pub open spec fn has_tool(tools: Seq<ToolSpecV>, name: Seq<char>) -> bool {
    exists|i: int| 0 <= i < tools.len() && (#[trigger] tools[i]).name == name
}

/// The `tools` array of a request.
pub open spec fn tools_array(tools: Seq<ToolSpecV>) -> JsonV {
    JsonV::Array(Seq::new(tools.len(), |i: int| tools[i].openai))
}

#[derive(Debug, Clone, Copy, PartialEq, Eq, Structural)]
pub enum RegisterError {
    /// The registry is frozen.
    Frozen,
    /// A tool of that name is registered.
    Duplicate,
}

proof fn lemma_kept(tools: Seq<ToolSpecV>, names: Seq<Seq<char>>, want: bool, n: nat)
    requires
        sorted(tools),
        n <= tools.len(),
    ensures
        sorted(kept(tools, names, want, n)),
        forall|k: int|
            0 <= k < kept(tools, names, want, n).len() ==> exists|i: int|
                0 <= i < n && tools[i] == #[trigger] kept(tools, names, want, n)[k],
    decreases n,
{
    if n > 0 {
        lemma_kept(tools, names, want, (n - 1) as nat);
        let p = kept(tools, names, want, (n - 1) as nat);
        let q = kept(tools, names, want, n);
        assert forall|i: int, j: int| 0 <= i < j < q.len() implies before((#[trigger] q[i]).name, (#[trigger] q[j]).name) by {
            if j == p.len() {
                let m = choose|m: int| 0 <= m < n - 1 && tools[m] == p[i];
                assert(tools[m] == q[i]);
                assert(before(tools[m].name, tools[n - 1].name));
            } else {
                assert(before(p[i].name, p[j].name));
            }
        }
        assert forall|k: int| 0 <= k < q.len() implies exists|i: int| 0 <= i < n && tools[i] == #[trigger] q[k] by {
            if k < p.len() {
                let m = choose|m: int| 0 <= m < n - 1 && tools[m] == p[k];
                assert(tools[m] == q[k]);
            } else {
                assert(tools[n - 1] == q[k]);
            }
        }
    }
}

impl ToolRegistry {
    /// The tools are in the order of their names; what is frozen is their array.
    pub closed spec fn wf(self) -> bool {
        sorted(self@.tools) && match self@.frozen {
            Some(j) => j == tools_array(self@.tools),
            None => true,
        }
    }

    pub fn new() -> (r: ToolRegistry)
        ensures
            r.wf(),
            r@ == (RegistryV { tools: Seq::empty(), frozen: None }),
    {
        let r = ToolRegistry { tools: Vec::new(), frozen: None };
        assert(r@.tools =~= Seq::empty());
        r
    }

    /// Adds a tool in the place of its name.
    pub fn register(&mut self, t: ToolSpec) -> (r: Result<(), RegisterError>)
        requires
            old(self).wf(),
        ensures
            final(self).wf(),
            match r {
                Err(RegisterError::Frozen) => old(self)@.frozen is Some && final(self)@ == old(self)@,
                Err(RegisterError::Duplicate) => old(self)@.frozen is None && has_tool(old(self)@.tools, t@.name)
                    && final(self)@ == old(self)@,
                Ok(_) => {
                    &&& old(self)@.frozen is None
                    &&& !has_tool(old(self)@.tools, t@.name)
                    &&& final(self)@.frozen is None
                    &&& exists|k: int|
                        0 <= k <= old(self)@.tools.len() && final(self)@.tools == old(self)@.tools.insert(k, t@)
                },
            },
    {
        if self.frozen.is_some() {
            return Err(RegisterError::Frozen);
        }
        let ghost tv = self@.tools;
        let mut i: usize = 0;
        while i < self.tools.len() && is_before(self.tools[i].name.as_str(), t.name.as_str())
            invariant
                i <= self.tools.len(),
                tv == self@.tools,
                forall|k: int| 0 <= k < i ==> before((#[trigger] tv[k]).name, t@.name),
            decreases self.tools.len() - i,
        {
            assert(tv[i as int] == self.tools@[i as int]@);
            i += 1;
        }
        if i < self.tools.len() && str_eq(self.tools[i].name.as_str(), t.name.as_str()) {
            assert(tv[i as int].name == t@.name);
            return Err(RegisterError::Duplicate);
        }
        proof {
            assert forall|k: int| i <= k < tv.len() implies before(t@.name, (#[trigger] tv[k]).name) by {
                assert(tv[i as int] == self.tools@[i as int]@);
                lemma_before_total(tv[i as int].name, t@.name);
                if k > i {
                    assert(before(tv[i as int].name, tv[k].name));
                    lemma_before_transitive(t@.name, tv[i as int].name, tv[k].name);
                }
            }
            assert(!has_tool(tv, t@.name)) by {
                if has_tool(tv, t@.name) {
                    let k = choose|k: int| 0 <= k < tv.len() && (#[trigger] tv[k]).name == t@.name;
                    lemma_before_irreflexive(t@.name);
                    assert(before(tv[k].name, t@.name) || before(t@.name, tv[k].name));
                }
            }
        }
        let ghost old_tools = self.tools@;
        let ghost tview = t@;
        self.tools.insert(i, t);
        proof {
            assert(self@.tools =~= tv.insert(i as int, tview));
            let nt = self@.tools;
            assert forall|a: int, b: int| 0 <= a < b < nt.len() implies before(
                (#[trigger] nt[a]).name,
                (#[trigger] nt[b]).name,
            ) by {
                if a < i && b < i {
                    assert(nt[a] == tv[a] && nt[b] == tv[b]);
                } else if a < i && b == i {
                    assert(nt[a] == tv[a]);
                } else if a < i {
                    assert(nt[a] == tv[a] && nt[b] == tv[b - 1]);
                } else if a == i {
                    assert(nt[b] == tv[b - 1]);
                } else {
                    assert(nt[a] == tv[a - 1] && nt[b] == tv[b - 1]);
                }
            }
        }
        Ok(())
    }

    /// The tool of a name.
    pub fn get(&self, name: &str) -> (r: Option<&ToolSpec>)
        ensures
            match r {
                Some(t) => tool_from(self@.tools, name@, 0) == Some(t@),
                None => tool_from(self@.tools, name@, 0) is None,
            },
    {
        let mut i: usize = 0;
        while i < self.tools.len()
            invariant
                i <= self.tools.len(),
                tool_from(self@.tools, name@, 0) == tool_from(self@.tools, name@, i as int),
            decreases self.tools.len() - i,
        {
            assert(self@.tools[i as int] == self.tools@[i as int]@);
            if str_eq(self.tools[i].name.as_str(), name) {
                return Some(&self.tools[i]);
            }
            i += 1;
        }
        None
    }

    /// The names, in order.
    pub fn names(&self) -> (r: Vec<String>)
        ensures
            strings(r@) == names_of(self@.tools),
    {
        let mut out: Vec<String> = Vec::new();
        let mut i: usize = 0;
        let ghost want = names_of(self@.tools);
        while i < self.tools.len()
            invariant
                i <= self.tools.len(),
                want == names_of(self@.tools),
                strings(out@) == want.take(i as int),
            decreases self.tools.len() - i,
        {
            let ghost b = out@;
            out.push(self.tools[i].name.clone());
            assert(strings(out@) =~= strings(b).push(self.tools@[i as int].name@));
            i += 1;
        }
        assert(want.take(want.len() as int) =~= want);
        out
    }

    /// The tools, in the order of their names.
    pub fn specs(&self) -> (r: &Vec<ToolSpec>)
        ensures
            specs_view(r@) == self@.tools,
    {
        &self.tools
    }

    pub fn len(&self) -> (r: usize)
        ensures
            r == self@.tools.len(),
    {
        self.tools.len()
    }

    pub fn is_empty(&self) -> (r: bool)
        ensures
            r == (self@.tools.len() == 0),
    {
        self.tools.len() == 0
    }

    fn subset(&self, names: &Vec<String>, want: bool) -> (r: ToolRegistry)
        requires
            self.wf(),
        ensures
            r.wf(),
            r@ == (RegistryV {
                tools: kept(self@.tools, strings(names@), want, self@.tools.len()),
                frozen: None,
            }),
    {
        let mut out: Vec<ToolSpec> = Vec::new();
        let mut i: usize = 0;
        let ghost tv = self@.tools;
        assert(specs_view(out@) =~= Seq::empty());
        while i < self.tools.len()
            invariant
                i <= self.tools.len(),
                tv == self@.tools,
                specs_view(out@) == kept(tv, strings(names@), want, i as nat),
            decreases self.tools.len() - i,
        {
            assert(tv[i as int] == self.tools@[i as int]@);
            if list_contains(names, self.tools[i].name.as_str()) == want {
                let ghost b = out@;
                out.push(self.tools[i].copy());
                assert(specs_view(out@) =~= specs_view(b).push(tv[i as int]));
            }
            i += 1;
        }
        proof {
            lemma_kept(tv, strings(names@), want, tv.len());
        }
        ToolRegistry { tools: out, frozen: None }
    }

    /// A registry of the tools whose names are listed. It is not frozen.
    pub fn scoped(&self, allow: &Vec<String>) -> (r: ToolRegistry)
        requires
            self.wf(),
        ensures
            r.wf(),
            r@ == (RegistryV { tools: kept(self@.tools, strings(allow@), true, self@.tools.len()), frozen: None }),
    {
        self.subset(allow, true)
    }

    /// A registry of the tools whose names are not listed. It is not frozen.
    pub fn without(&self, deny: &Vec<String>) -> (r: ToolRegistry)
        requires
            self.wf(),
        ensures
            r.wf(),
            r@ == (RegistryV { tools: kept(self@.tools, strings(deny@), false, self@.tools.len()), frozen: None }),
    {
        self.subset(deny, false)
    }

    /// The `tools` array, in the order of the names. From now on the list is fixed.
    pub fn freeze(&mut self) -> (r: Json)
        requires
            old(self).wf(),
        ensures
            final(self).wf(),
            r@ == tools_array(old(self)@.tools),
            final(self)@ == (RegistryV { tools: old(self)@.tools, frozen: Some(r@) }),
    {
        if let Some(j) = &self.frozen {
            return j.copy();
        }
        let mut items: Vec<Json> = Vec::new();
        let mut i: usize = 0;
        let ghost want = Seq::new(self@.tools.len(), |i: int| self@.tools[i].openai);
        while i < self.tools.len()
            invariant
                i <= self.tools.len(),
                self.wf(),
                self@ == old(self)@,
                want == Seq::new(self@.tools.len(), |i: int| self@.tools[i].openai),
                jsons(items@) == want.take(i as int),
            decreases self.tools.len() - i,
        {
            let ghost b = items@;
            items.push(self.tools[i].openai.copy());
            assert(jsons(items@) =~= jsons(b).push(self.tools@[i as int].openai@));
            i += 1;
        }
        assert(want.take(want.len() as int) =~= want);
        let j = array(items);
        self.frozen = Some(j.copy());
        j
    }

    pub fn is_frozen(&self) -> (r: bool)
        ensures
            r == (self@.frozen is Some),
    {
        self.frozen.is_some()
    }

    /// Checks the arguments of a call against the schema of its tool.
    pub fn validate(&self, name: &str, args: &Json) -> (r: Result<(), ArgError>)
        ensures
            check_view(r) == call_error(self@.tools, name@, args@),
    {
        match self.get(name) {
            Some(t) => validate_against(&t.schema, args, ""),
            None => Err(ArgError::UnknownTool(name.to_owned())),
        }
    }
}

proof fn lemma_tool_from(tools: Seq<ToolSpecV>, name: Seq<char>, i: int)
    requires
        0 <= i,
    ensures
        match tool_from(tools, name, i) {
            Some(t) => t.name == name && exists|k: int| i <= k < tools.len() && #[trigger] tools[k] == t,
            None => forall|k: int| i <= k < tools.len() ==> (#[trigger] tools[k]).name != name,
        },
    decreases tools.len() - i,
{
    if i < tools.len() && tools[i].name != name {
        lemma_tool_from(tools, name, i + 1);
    }
}

/// Among tools in the order of their names each is found under its own name.
pub proof fn law_each_tool_is_found(tools: Seq<ToolSpecV>, i: int)
    requires
        sorted(tools),
        0 <= i < tools.len(),
    ensures
        tool_from(tools, tools[i].name, 0) == Some(tools[i]),
{
    lemma_tool_from(tools, tools[i].name, 0);
    match tool_from(tools, tools[i].name, 0) {
        Some(t) => {
            let k = choose|k: int| 0 <= k < tools.len() && #[trigger] tools[k] == t;
            if k < i {
                assert(before(tools[k].name, tools[i].name));
                lemma_before_irreflexive(tools[i].name);
            } else if i < k {
                assert(before(tools[i].name, tools[k].name));
                lemma_before_irreflexive(tools[i].name);
            }
        },
        None => {},
    }
}

/// A value is of a type that a schema may name.
pub proof fn law_types_by_name(v: JsonV)
    ensures
        fits_type("string"@, v) <==> v is Str,
        fits_type("number"@, v) <==> v is Number,
        fits_type("boolean"@, v) <==> v is Bool,
        fits_type("array"@, v) <==> v is Array,
        fits_type("object"@, v) <==> v is Object,
        fits_type("null"@, v) <==> v is Null,
        fits_type("integer"@, v) ==> v is Number,
        v is Number && !(v->Number_0 is Float) ==> fits_type("integer"@, v),
        v is Number && v->Number_0 is Float ==> (fits_type("integer"@, v) <==> integral(v->Number_0->Float_0)),
{
    reveal_strlit("string");
    reveal_strlit("number");
    reveal_strlit("boolean");
    reveal_strlit("array");
    reveal_strlit("object");
    reveal_strlit("null");
    reveal_strlit("integer");
    assert("string"@[0] == 's' && "number"@[0] == 'n' && "number"@.len() == 6 && "boolean"@[0] == 'b');
    assert("array"@[0] == 'a' && "object"@[0] == 'o' && "null"@[0] == 'n' && "null"@.len() == 4);
    assert("integer"@[0] == 'i');
}

/// A name is one of those that a schema requires.
pub open spec fn requires_name(schema: JsonV, name: Seq<char>) -> bool {
    schema.get("required"@) matches Some(JsonV::Array(req)) && req.contains(JsonV::Str(name))
}

/// An argument is as its part of the schema says: null; or of one of the types that are named,
/// and one of the values that are listed.
pub open spec fn is_in_order(ps: JsonV, v: JsonV) -> bool {
    v is Null || (named_types(ps).len() > 0 ==> exists|i: int|
        0 <= i < named_types(ps).len() && fits_type(#[trigger] named_types(ps)[i], v)) && (ps.get("enum"@) matches Some(
        JsonV::Array(en),
    ) ==> exists|i: int| 0 <= i < en.len() && same(#[trigger] en[i], v))
}

/// All arguments that a schema lists are as it says.
pub open spec fn all_in_order(schema: JsonV, obj: Seq<(Seq<char>, JsonV)>) -> bool {
    schema.get("properties"@) matches Some(JsonV::Object(props)) ==> forall|k: int|
        0 <= k < obj.len() && member(props, (#[trigger] obj[k]).0) is Some ==> is_in_order(
            member(props, obj[k].0)->Some_0,
            obj[k].1,
        )
}

/// No argument that a schema requires is missing, nor null.
pub open spec fn none_missing(schema: JsonV, obj: Seq<(Seq<char>, JsonV)>) -> bool {
    forall|name: Seq<char>| #[trigger]
        requires_name(schema, name) ==> (member(obj, name) matches Some(v) && !(v is Null))
}

/// Arguments are accepted where they are an object in which nothing that is required is missing
/// and everything that the schema lists is as it says, and only there. A name that is reported as
/// missing is required, and is not there.
pub proof fn law_arguments_are_checked(schema: JsonV, args: JsonV, path: Seq<char>)
    ensures
        arguments_error(schema, args, path) is None <==> args is Object && none_missing(schema, args->Object_0)
            && all_in_order(schema, args->Object_0),
        !(args is Object) ==> arguments_error(schema, args, path) == Some(ArgErrorV::NotObject),
        args is Object && !none_missing(schema, args->Object_0) ==> exists|name: Seq<char>| #[trigger]
            requires_name(schema, name) && arguments_error(schema, args, path) == Some(ArgErrorV::Missing(path + name)) && (
            member(args->Object_0, name) matches Some(v) ==> v is Null),
        args is Object && none_missing(schema, args->Object_0) && !all_in_order(schema, args->Object_0) ==> (
        arguments_error(schema, args, path) matches Some(e) && (e is Type || e is Enum)),
{
    if let JsonV::Object(obj) = args {
        let missing = match schema.get("required"@) {
            Some(JsonV::Array(req)) => {
                lemma_first_missing(req, obj, 0);
                first_missing(req, obj, 0)
            },
            _ => None,
        };
        if let Some(JsonV::Array(req)) = schema.get("required"@) {
            match missing {
                Some(r) => {
                    assert(requires_name(schema, r));
                    assert(!none_missing(schema, obj));
                },
                None => {
                    assert forall|name: Seq<char>| #[trigger] requires_name(schema, name) implies (member(
                        obj,
                        name,
                    ) matches Some(v) && !(v is Null)) by {
                        let i = choose|i: int| 0 <= i < req.len() && req[i] == JsonV::Str(name);
                        assert(req[i].str() == Some(name));
                    }
                },
            }
        }
        if missing is None {
            if let Some(JsonV::Object(props)) = schema.get("properties"@) {
                lemma_first_argument_error(props, obj, path, 0);
            }
        }
    }
}

proof fn lemma_first_missing(req: Seq<JsonV>, obj: Seq<(Seq<char>, JsonV)>, i: int)
    requires
        0 <= i,
    ensures
        match first_missing(req, obj, i) {
            Some(r) => req.contains(JsonV::Str(r)) && (member(obj, r) matches Some(v) ==> v is Null),
            None => forall|k: int|
                i <= k < req.len() ==> ((#[trigger] req[k]).str() matches Some(r) ==> (member(obj, r) matches Some(v)
                    && !(v is Null))),
        },
    decreases req.len() - i,
{
    if i < req.len() {
        lemma_first_missing(req, obj, i + 1);
        if let Some(r) = req[i].str() {
            assert(req[i] == JsonV::Str(r));
        }
    }
}

proof fn lemma_first_argument_error(
    props: Seq<(Seq<char>, JsonV)>,
    obj: Seq<(Seq<char>, JsonV)>,
    path: Seq<char>,
    i: int,
)
    requires
        0 <= i,
    ensures
        first_argument_error(props, obj, path, i) is None <==> forall|k: int|
            i <= k < obj.len() && member(props, (#[trigger] obj[k]).0) is Some ==> is_in_order(
                member(props, obj[k].0)->Some_0,
                obj[k].1,
            ),
        first_argument_error(props, obj, path, i) matches Some(e) ==> e is Type || e is Enum,
    decreases obj.len() - i,
{
    if i < obj.len() {
        lemma_first_argument_error(props, obj, path, i + 1);
        if let Some(ps) = member(props, obj[i].0) {
            let v = obj[i].1;
            let e = argument_error(ps, path + obj[i].0, v);
            assert(e is None <==> is_in_order(ps, v));
            assert(e matches Some(x) ==> x is Type || x is Enum);
        }
    }
}

/// A call of a tool that is not there is refused by its name; any other by what is wrong with
/// its arguments, and only by that.
pub proof fn law_only_known_tools_are_called(tools: Seq<ToolSpecV>, name: Seq<char>, args: JsonV)
    requires
        sorted(tools),
    ensures
        !has_tool(tools, name) ==> call_error(tools, name, args) == Some(ArgErrorV::UnknownTool(name)),
        forall|i: int|
            0 <= i < tools.len() && (#[trigger] tools[i]).name == name ==> call_error(tools, name, args)
                == arguments_error(tools[i].schema, args, ""@),
{
    lemma_tool_from(tools, name, 0);
    assert forall|i: int| 0 <= i < tools.len() && (#[trigger] tools[i]).name == name implies call_error(
        tools,
        name,
        args,
    ) == arguments_error(tools[i].schema, args, ""@) by {
        law_each_tool_is_found(tools, i);
    }
}

/// The tools that are kept are those whose names are listed, or those whose names are not, in
/// their order.
pub proof fn law_tools_are_kept_by_name(tools: Seq<ToolSpecV>, names: Seq<Seq<char>>, want: bool, n: nat)
    requires
        n <= tools.len(),
    ensures
        kept(tools, names, want, n) == tools.take(n as int).filter(|t: ToolSpecV| names.contains(t.name) == want),
    decreases n,
{
    reveal(Seq::filter);
    let f = |t: ToolSpecV| names.contains(t.name) == want;
    if n > 0 {
        law_tools_are_kept_by_name(tools, names, want, (n - 1) as nat);
        let t = tools.take(n as int);
        assert(t.drop_last() =~= tools.take(n - 1));
        assert(t.last() == tools[n - 1]);
    } else {
        assert(tools.take(0).len() == 0);
        assert(kept(tools, names, want, 0) =~= tools.take(0).filter(f));
    }
}

/// A request has every tool, as it is described, in the order of the tools.
pub proof fn law_every_tool_is_offered(tools: Seq<ToolSpecV>, i: int)
    requires
        0 <= i < tools.len(),
    ensures
        tools_array(tools) matches JsonV::Array(a) && a.len() == tools.len() && a[i] == tools[i].openai,
        names_of(tools).len() == tools.len(),
        names_of(tools)[i] == tools[i].name,
{
}

} // verus!
