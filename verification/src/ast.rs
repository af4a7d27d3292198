use vstd::prelude::*;

use crate::json_utils::{JsonV, JsonValue};

verus! {

/// The value of one `key = value` resource property.
#[derive(Debug, PartialEq)]
pub enum ResourcePropertyValue {
    /// The literal `null`.
    VNull,
    /// The literals `true` and `false`.
    VBoolean(bool),
    /// A double-quoted string; the content between the quotes is kept
    /// verbatim, with no escape decoding.
    VString(String),
    /// The document inside a `jsonencode(...)` call.
    VJson(JsonValue),
    /// The quoted strings inside a `toset([...])` call, in source order.
    VSet(Vec<String>),
    /// The literal token `each.key`: a per-iteration placeholder.
    VEach,
    /// A dotted path `type.name...`: an unresolved pointer to another
    /// resource's identity. Segments after the second are discarded.
    VReference { res_type: String, res_name: String },
}

pub type ResourceProperty = (String, ResourcePropertyValue);

pub type ResourceDefinition = Vec<ResourceProperty>;

/// One parsed `resource "<type>" "<name>" { ... }` block. Properties keep
/// their source order; duplicate keys are kept, not merged.
#[derive(Debug, PartialEq)]
pub struct Resource {
    pub res_type: String,
    pub res_def: ResourceDefinition,
    pub res_name: String,
}

/// The mathematical model of a `ResourcePropertyValue`.
pub enum PropV {
    VNull,
    VBoolean(bool),
    VString(Seq<char>),
    VJson(JsonV),
    VSet(Seq<Seq<char>>),
    VEach,
    VReference { res_type: Seq<char>, res_name: Seq<char> },
}

/// The mathematical model of a `Resource`.
pub struct ResourceV {
    pub res_type: Seq<char>,
    pub res_def: Seq<(Seq<char>, PropV)>,
    pub res_name: Seq<char>,
}

/// The views of a sequence of strings.
pub open spec fn view_strs(s: Seq<String>) -> Seq<Seq<char>>
    decreases s,
{
    if s.len() == 0 {
        Seq::empty()
    } else {
        view_strs(s.drop_last()).push(s.last()@)
    }
}

pub proof fn lemma_view_strs_push(s: Seq<String>, x: String)
    ensures
        view_strs(s.push(x)) == view_strs(s).push(x@),
{
    assert(s.push(x).drop_last() =~= s);
}

impl ResourcePropertyValue {
    pub open spec fn view(self) -> PropV {
        match self {
            ResourcePropertyValue::VNull => PropV::VNull,
            ResourcePropertyValue::VBoolean(b) => PropV::VBoolean(b),
            ResourcePropertyValue::VString(s) => PropV::VString(s@),
            ResourcePropertyValue::VJson(j) => PropV::VJson(j.view()),
            ResourcePropertyValue::VSet(items) => PropV::VSet(view_strs(items@)),
            ResourcePropertyValue::VEach => PropV::VEach,
            ResourcePropertyValue::VReference { res_type, res_name } => PropV::VReference {
                res_type: res_type@,
                res_name: res_name@,
            },
        }
    }
}

/// The views of a property list.
pub open spec fn view_props(s: Seq<(String, ResourcePropertyValue)>) -> Seq<(Seq<char>, PropV)>
    decreases s,
{
    if s.len() == 0 {
        Seq::empty()
    } else {
        view_props(s.drop_last()).push((s.last().0@, s.last().1.view()))
    }
}

pub proof fn lemma_view_props_push(s: Seq<(String, ResourcePropertyValue)>, x: (String, ResourcePropertyValue))
    ensures
        view_props(s.push(x)) == view_props(s).push((x.0@, x.1.view())),
{
    assert(s.push(x).drop_last() =~= s);
}

impl Resource {
    pub open spec fn view(self) -> ResourceV {
        ResourceV {
            res_type: self.res_type@,
            res_def: view_props(self.res_def@),
            res_name: self.res_name@,
        }
    }
}

/// The views of a resource list.
pub open spec fn view_resources(s: Seq<Resource>) -> Seq<ResourceV>
    decreases s,
{
    if s.len() == 0 {
        Seq::empty()
    } else {
        view_resources(s.drop_last()).push(s.last().view())
    }
}

pub proof fn lemma_view_resources_push(s: Seq<Resource>, x: Resource)
    ensures
        view_resources(s.push(x)) == view_resources(s).push(x.view()),
{
    assert(s.push(x).drop_last() =~= s);
}

} // verus!
