//! Where the layout's measures come from: the command line, the environment,
//! or the built-in values, in this order.

use vstd::prelude::*;

use crate::layout::{
    LayoutConfig,
    DEFAULT_GAP,
    DEFAULT_STRUT_BOTTOM,
    DEFAULT_STRUT_LEFT,
    DEFAULT_STRUT_RIGHT,
    DEFAULT_STRUT_TOP,
};
use crate::number::parse_i32;

verus! {

use crate::layout::default_config;
use crate::number::i32_value;
use crate::text::opt_view;

/// The measures that the command line gives.
#[derive(Clone, Copy, Debug)]
pub struct LayoutFlags {
    pub gap: Option<i32>,
    pub strut_left: Option<i32>,
    pub strut_right: Option<i32>,
    pub strut_top: Option<i32>,
    pub strut_bottom: Option<i32>,
}

/// The texts of the environment variables `IRENE_GAP`, `IRENE_STRUT_LEFT` and
/// so on, where they are set.
#[derive(Clone, Copy, Debug)]
pub struct LayoutVariables<'a> {
    pub gap: Option<&'a str>,
    pub strut_left: Option<&'a str>,
    pub strut_right: Option<&'a str>,
    pub strut_top: Option<&'a str>,
    pub strut_bottom: Option<&'a str>,
}

/// One measure: the flag, or else the variable where it reads as a number, or
/// else the built-in value.
pub open spec fn measure(flag: Option<i32>, variable: Option<Seq<char>>, built_in: i32) -> i32 {
    match flag {
        Some(value) => value,
        None => match variable {
            Some(text) => match i32_value(text) {
                Some(value) => value,
                None => built_in,
            },
            None => built_in,
        },
    }
}

/// All measures.
pub open spec fn resolved(flags: LayoutFlags, variables: LayoutVariables) -> LayoutConfig {
    LayoutConfig {
        gap: measure(flags.gap, opt_view(variables.gap), DEFAULT_GAP),
        strut_left: measure(flags.strut_left, opt_view(variables.strut_left), DEFAULT_STRUT_LEFT),
        strut_right: measure(
            flags.strut_right,
            opt_view(variables.strut_right),
            DEFAULT_STRUT_RIGHT,
        ),
        strut_top: measure(flags.strut_top, opt_view(variables.strut_top), DEFAULT_STRUT_TOP),
        strut_bottom: measure(
            flags.strut_bottom,
            opt_view(variables.strut_bottom),
            DEFAULT_STRUT_BOTTOM,
        ),
    }
}

/// Settles one measure.
fn pick(flag: Option<i32>, variable: Option<&str>, built_in: i32) -> (value: i32)
    ensures
        value == measure(flag, opt_view(variable), built_in),
{
    match flag {
        Some(value) => value,
        None => match variable {
            Some(text) => match parse_i32(text) {
                Some(value) => value,
                None => built_in,
            },
            None => built_in,
        },
    }
}

/// Settles all measures.
pub fn resolve_layout_config(flags: &LayoutFlags, variables: &LayoutVariables) -> (config:
    LayoutConfig)
    ensures
        config == resolved(*flags, *variables),
{
    LayoutConfig {
        gap: pick(flags.gap, variables.gap, DEFAULT_GAP),
        strut_left: pick(flags.strut_left, variables.strut_left, DEFAULT_STRUT_LEFT),
        strut_right: pick(flags.strut_right, variables.strut_right, DEFAULT_STRUT_RIGHT),
        strut_top: pick(flags.strut_top, variables.strut_top, DEFAULT_STRUT_TOP),
        strut_bottom: pick(flags.strut_bottom, variables.strut_bottom, DEFAULT_STRUT_BOTTOM),
    }
}

/// Where nothing is set, the default configuration holds.
pub proof fn nothing_set_is_default()
    ensures
        resolved(
            LayoutFlags {
                gap: None,
                strut_left: None,
                strut_right: None,
                strut_top: None,
                strut_bottom: None,
            },
            LayoutVariables {
                gap: None,
                strut_left: None,
                strut_right: None,
                strut_top: None,
                strut_bottom: None,
            },
        ) == default_config(),
{
}

/// A flag counts whatever the environment says, each measure by itself.
pub proof fn flags_outrank_variables(flags: LayoutFlags, variables: LayoutVariables)
    ensures
        flags.gap matches Some(value) ==> resolved(flags, variables).gap == value,
        flags.strut_left matches Some(value) ==> resolved(flags, variables).strut_left == value,
        flags.strut_right matches Some(value) ==> resolved(flags, variables).strut_right == value,
        flags.strut_top matches Some(value) ==> resolved(flags, variables).strut_top == value,
        flags.strut_bottom matches Some(value) ==> resolved(flags, variables).strut_bottom == value,
{
}

/// Without a flag a measure is what the variable says, where it says a whole
/// number; and where it does not, or is not set, the built-in value: a gap of ten
/// pixels, twenty-eight at the left edge, and nothing at the others.
pub proof fn variables_outrank_built_in_values(
    flags: LayoutFlags,
    variables: LayoutVariables,
)
    ensures
        flags.gap is None ==> match variables.gap {
            Some(text) => match i32_value(text@) {
                Some(n) => resolved(flags, variables).gap == n,
                None => resolved(flags, variables).gap == 10,
            },
            None => resolved(flags, variables).gap == 10,
        },
        flags.strut_left is None ==> match variables.strut_left {
            Some(text) => match i32_value(text@) {
                Some(n) => resolved(flags, variables).strut_left == n,
                None => resolved(flags, variables).strut_left == 28,
            },
            None => resolved(flags, variables).strut_left == 28,
        },
        flags.strut_right is None ==> match variables.strut_right {
            Some(text) => match i32_value(text@) {
                Some(n) => resolved(flags, variables).strut_right == n,
                None => resolved(flags, variables).strut_right == 0,
            },
            None => resolved(flags, variables).strut_right == 0,
        },
        flags.strut_top is None ==> match variables.strut_top {
            Some(text) => match i32_value(text@) {
                Some(n) => resolved(flags, variables).strut_top == n,
                None => resolved(flags, variables).strut_top == 0,
            },
            None => resolved(flags, variables).strut_top == 0,
        },
        flags.strut_bottom is None ==> match variables.strut_bottom {
            Some(text) => match i32_value(text@) {
                Some(n) => resolved(flags, variables).strut_bottom == n,
                None => resolved(flags, variables).strut_bottom == 0,
            },
            None => resolved(flags, variables).strut_bottom == 0,
        },
{
}

} // verus!
