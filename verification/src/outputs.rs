//! Looking outputs up by name: their size and their scale.

use vstd::prelude::*;

use crate::model::{LogicalSize, Output};
use crate::text::same_text;

verus! {

use crate::text::opt_view;

/// The width that is taken where an output or its size is not known.
pub const FALLBACK_WIDTH: i32 = 2560;

/// The height that is taken where an output or its size is not known.
pub const FALLBACK_HEIGHT: i32 = 1440;

/// The scale that is taken where an output or its scale is not known: the bits
/// of the double one.
pub const FALLBACK_SCALE: u64 = 0x3ff0_0000_0000_0000;

/// The size of the first output of that name; none where no name is given, no
/// output bears it, or the output has no size.
pub open spec fn size_named(outputs: Seq<Output>, name: Option<Seq<char>>) -> Option<LogicalSize>
    decreases outputs.len(),
{
    if name is None || outputs.len() == 0 {
        None
    } else if outputs.first().name@ == name->0 {
        outputs.first().logical
    } else {
        size_named(outputs.drop_first(), name)
    }
}

/// The number that the low bits of `n` stand for as an `i32`.
pub open spec fn as_signed(n: u32) -> int {
    if n < 0x8000_0000 {
        n as int
    } else {
        n - 0x1_0000_0000
    }
}

/// Width and height of a size, or those taken where none is known.
pub open spec fn dimensions(size: Option<LogicalSize>) -> (int, int) {
    match size {
        Some(s) => (as_signed(s.width), as_signed(s.height)),
        None => (FALLBACK_WIDTH as int, FALLBACK_HEIGHT as int),
    }
}

/// The scale of a size, or the one taken where none is known.
pub open spec fn scale_of(size: Option<LogicalSize>) -> u64 {
    match size {
        Some(s) => s.scale,
        None => FALLBACK_SCALE,
    }
}

/// Reads the low bits of `n` as an `i32`.
fn to_signed(n: u32) -> (m: i32)
    ensures
        m == as_signed(n),
{
    if n < 0x8000_0000 {
        n as i32
    } else {
        let rest: i32 = (n - 0x8000_0000) as i32;
        i32::MIN + rest
    }
}

/// Finds the size of the output of that name.
fn find_size(outputs: &[Output], name: Option<&str>) -> (size: Option<LogicalSize>)
    ensures
        size == size_named(outputs@, opt_view(name)),
{
    let wanted: &str = match name {
        Some(n) => n,
        None => {
            return None;
        },
    };
    let mut i: usize = 0;
    assert(outputs@.skip(0) =~= outputs@);
    while i < outputs.len()
        invariant
            i <= outputs.len(),
            name == Some(wanted),
            size_named(outputs@, opt_view(name)) == size_named(
                outputs@.skip(i as int),
                opt_view(name),
            ),
        decreases outputs.len() - i,
    {
        assert(outputs@.skip(i as int).first() == outputs@[i as int]);
        assert(outputs@.skip(i as int).drop_first() =~= outputs@.skip(i + 1));
        if same_text(outputs[i].name.as_str(), wanted) {
            return outputs[i].logical;
        }
        i = i + 1;
    }
    None
}

/// Width and height of a size, or those taken where none is known.
pub fn logical_dimensions(size: Option<LogicalSize>) -> (extent: (i32, i32))
    ensures
        (extent.0 as int, extent.1 as int) == dimensions(size),
{
    match size {
        Some(s) => (to_signed(s.width), to_signed(s.height)),
        None => (FALLBACK_WIDTH, FALLBACK_HEIGHT),
    }
}

/// The scale of a size, or the one taken where none is known.
pub fn logical_scale(size: Option<LogicalSize>) -> (scale: u64)
    ensures
        scale == scale_of(size),
{
    match size {
        Some(s) => s.scale,
        None => FALLBACK_SCALE,
    }
}

/// Width and height of the output of that name.
pub fn output_dimensions(outputs: &[Output], name: Option<&str>) -> (extent: (i32, i32))
    ensures
        (extent.0 as int, extent.1 as int) == dimensions(size_named(outputs@, opt_view(name))),
{
    logical_dimensions(find_size(outputs, name))
}

/// The scale of the output of that name, as the bits of a double.
pub fn output_scale(outputs: &[Output], name: Option<&str>) -> (scale: u64)
    ensures
        scale == scale_of(size_named(outputs@, opt_view(name))),
{
    logical_scale(find_size(outputs, name))
}

/// Where no two outputs share a name, what is found does not depend on the order
/// in which they are listed: it is the size of the output that bears the name.
pub proof fn size_of_the_named_output(outputs: Seq<Output>, at: int)
    requires
        0 <= at < outputs.len(),
        forall|i: int, j: int|
            0 <= i < j < outputs.len() ==> #[trigger] outputs[i].name@ != #[trigger] outputs[j].name@,
    ensures
        size_named(outputs, Some(outputs[at].name@)) == outputs[at].logical,
    decreases outputs.len(),
{
    if at > 0 {
        let rest = outputs.drop_first();
        assert(outputs[0].name@ != outputs[at].name@);
        assert forall|i: int, j: int| 0 <= i < j < rest.len() implies #[trigger] rest[i].name@
            != #[trigger] rest[j].name@ by {
            assert(outputs[i + 1].name@ != outputs[j + 1].name@);
        }
        size_of_the_named_output(rest, at - 1);
        assert(rest[at - 1] == outputs[at]);
    }
}

/// A name that no output bears gives the fallback size and scale.
pub proof fn unknown_outputs_have_the_fallback_size(outputs: Seq<Output>, name: Option<Seq<char>>)
    requires
        name matches Some(n) ==> forall|i: int|
            0 <= i < outputs.len() ==> #[trigger] outputs[i].name@ != n,
    ensures
        dimensions(size_named(outputs, name)) == (FALLBACK_WIDTH as int, FALLBACK_HEIGHT as int),
        scale_of(size_named(outputs, name)) == FALLBACK_SCALE,
    decreases outputs.len(),
{
    if name is Some && outputs.len() > 0 {
        let rest = outputs.drop_first();
        assert forall|i: int| 0 <= i < rest.len() implies #[trigger] rest[i].name@ != name->0 by {
            assert(outputs[i + 1].name@ != name->0);
        }
        assert(outputs.first() == outputs[0]);
        unknown_outputs_have_the_fallback_size(rest, name);
    }
}

/// What is known of an output counts: its width and height, which are read as
/// numbers with a sign where they are large, and its scale. Of an output of
/// unknown size it is taken to be 2560 pixels wide and 1440 high, at the scale of
/// one, whose bits as a double are those of the exponent 1023 alone.
pub proof fn sizes_are_what_is_known(size: LogicalSize)
    ensures
        ({
            let (width, height) = dimensions(Some(size));
            &&& (width - size.width) % 0x1_0000_0000 == 0
            &&& (height - size.height) % 0x1_0000_0000 == 0
            &&& -0x8000_0000 <= width < 0x8000_0000
            &&& -0x8000_0000 <= height < 0x8000_0000
        }),
        scale_of(Some(size)) == size.scale,
        dimensions(None) == (2560int, 1440int),
        scale_of(None) == 1023 * 0x10_0000_0000_0000,
{
}

} // verus!
