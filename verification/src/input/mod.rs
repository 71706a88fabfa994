//! Input routing: methods that produce input, handlers that consume it, and
//! the wiring between them.

pub mod handler;
pub mod method;
pub mod ranking;
pub mod wiring;

use crate::alias::{AliasInfo, AliasInfoView};
use crate::registry::NodeId;
use vstd::prelude::*;
use vstd::string::StringExecFns;

verus! {

/// A distance in fixed-point units. Negative inside a field.
pub type Distance = i64;

/// Half of `d`, rounded toward negative infinity.
pub open spec fn half(d: int) -> int {
    d / 2
}

/// The distance by which a method ranks a handler: the true distance, or
/// half of it where the handler has captured the method, so that the handler
/// that holds the method keeps it against one that is only slightly nearer.
pub open spec fn biased(captured: bool, true_distance: int) -> int {
    if captured {
        half(true_distance)
    } else {
        true_distance
    }
}

/// Half of `d`, rounded toward negative infinity.
pub fn halve(d: Distance) -> (h: Distance)
    ensures
        h == half(d as int),
{
    if d >= 0 {
        d / 2
    } else {
        -((-(d + 1)) / 2) - 1
    }
}

/// A one-way notice to the client that owns an input method. Delivery is
/// best effort: the caller sends it and ignores a failure to deliver.
#[derive(Clone, Copy, Debug, PartialEq, Eq, Structural)]
pub enum Notice {
    /// `handler` can now be reached by `method`.
    HandlerCreated { method: NodeId, handler: NodeId },
    /// `handler` is gone.
    HandlerDestroyed { method: NodeId, handler: NodeId },
}

/// What the alias of a handler lets the client of a method do: read the
/// handler's transform.
pub open spec fn handler_alias_info() -> AliasInfoView {
    AliasInfoView { server_signals: Seq::empty(), server_methods: seq!["get_transform"@] }
}

/// What the alias of a handler's field lets the client of a method do: ask
/// the field for distances. The same for every field.
pub open spec fn field_alias_info() -> AliasInfoView {
    AliasInfoView {
        server_signals: Seq::empty(),
        server_methods: seq!["distance"@, "normal"@, "closest_point"@, "ray_march"@],
    }
}

/// What the alias of a method lets through to the client of a handler: the
/// capture event.
pub open spec fn method_alias_info() -> AliasInfoView {
    AliasInfoView { server_signals: seq!["capture"@], server_methods: Seq::empty() }
}

/// The allowlist of the alias of a handler.
pub fn make_handler_alias_info() -> (info: AliasInfo)
    ensures
        info@ == handler_alias_info(),
{
    let mut server_methods: Vec<String> = Vec::new();
    server_methods.push(String::from_str("get_transform"));
    let info = AliasInfo { server_signals: Vec::new(), server_methods };
    assert(info@.server_signals =~= Seq::<Seq<char>>::empty());
    assert(info@.server_methods =~= seq!["get_transform"@]);
    info
}

/// The allowlist of the alias of a handler's field.
pub fn make_field_alias_info() -> (info: AliasInfo)
    ensures
        info@ == field_alias_info(),
{
    let mut server_methods: Vec<String> = Vec::new();
    server_methods.push(String::from_str("distance"));
    server_methods.push(String::from_str("normal"));
    server_methods.push(String::from_str("closest_point"));
    server_methods.push(String::from_str("ray_march"));
    let info = AliasInfo { server_signals: Vec::new(), server_methods };
    assert(info@.server_signals =~= Seq::<Seq<char>>::empty());
    assert(info@.server_methods =~= seq![
        "distance"@,
        "normal"@,
        "closest_point"@,
        "ray_march"@,
    ]);
    info
}

/// The allowlist of the alias of a method.
pub fn make_method_alias_info() -> (info: AliasInfo)
    ensures
        info@ == method_alias_info(),
{
    let mut server_signals: Vec<String> = Vec::new();
    server_signals.push(String::from_str("capture"));
    let info = AliasInfo { server_signals, server_methods: Vec::new() };
    assert(info@.server_signals =~= seq!["capture"@]);
    assert(info@.server_methods =~= Seq::<Seq<char>>::empty());
    info
}

} // verus!
