//! Pin identifiers and the rule for which pins a link may join.
//!
//! A pin id is `node_id * 10 + pin_type`: type 2 is an output, type 1 and
//! every type from 3 up are inputs. Ids are divided as Rust's `/` and `%`
//! do on `i32`, rounding toward zero.
use vstd::prelude::*;

verus! {

/// The node a pin belongs to.
pub open spec fn node_of(pin: i32) -> int {
    if pin >= 0 {
        pin / 10
    } else {
        -((-pin) / 10)
    }
}

/// The pin's type digit (negative for a negative id).
pub open spec fn pin_type(pin: i32) -> int {
    pin - 10 * node_of(pin)
}

pub open spec fn is_output(pin: i32) -> bool {
    pin_type(pin) == 2
}

/// Two pins may be linked: they differ, belong to different nodes, and
/// exactly one of them is an output.
pub open spec fn compatible(a: i32, b: i32) -> bool {
    &&& a != b
    &&& node_of(a) != node_of(b)
    &&& is_output(a) != is_output(b)
}

/// The pair ordered output first, input second.
pub open spec fn normalized(start: i32, end: i32) -> (i32, i32) {
    if is_output(start) {
        (start, end)
    } else {
        (end, start)
    }
}

/// The node a pin belongs to.
pub fn node_id_of(pin: i32) -> (r: i32)
    ensures
        r == node_of(pin),
{
    if pin >= 0 {
        ((pin as u32) / 10) as i32
    } else {
        let m = (-(pin as i64)) as u64;
        -((m / 10) as i64) as i32
    }
}

/// Whether the pin is an output pin.
pub fn pin_is_output(pin: i32) -> (r: bool)
    ensures
        r == is_output(pin),
{
    let node = node_id_of(pin);
    (pin as i64) - 10 * (node as i64) == 2
}

/// Whether a link may join `start_pin` and `end_pin`, in either order.
pub fn pins_compatible(start_pin: i32, end_pin: i32) -> (r: bool)
    ensures
        r == compatible(start_pin, end_pin),
{
    if start_pin == end_pin {
        return false;
    }
    if node_id_of(start_pin) == node_id_of(end_pin) {
        return false;
    }
    pin_is_output(start_pin) != pin_is_output(end_pin)
}

/// The two pins ordered output first, input second.
pub fn normalize_link(start_pin: i32, end_pin: i32) -> (r: (i32, i32))
    ensures
        r == normalized(start_pin, end_pin),
{
    if pin_is_output(start_pin) {
        (start_pin, end_pin)
    } else {
        (end_pin, start_pin)
    }
}

/// Compatibility does not depend on the order of the pins, never holds of a
/// pin with itself, of two pins of one node, of two outputs or of two inputs.
pub proof fn lemma_compatible_symmetric(a: i32, b: i32)
    ensures
        compatible(a, b) == compatible(b, a),
        !compatible(a, a),
        node_of(a) == node_of(b) ==> !compatible(a, b),
        is_output(a) && is_output(b) ==> !compatible(a, b),
        !is_output(a) && !is_output(b) ==> !compatible(a, b),
{
}

/// A link drawn from either end of a compatible pair gives the same record,
/// with its output first.
pub proof fn lemma_normalized_either_way(a: i32, b: i32)
    requires
        compatible(a, b),
    ensures
        normalized(a, b) == normalized(b, a),
        is_output(normalized(a, b).0),
        !is_output(normalized(a, b).1),
{
}

} // verus!
