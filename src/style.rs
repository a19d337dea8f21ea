//! The stylesheet written into every plot: the default classes and custom CSS.
use vstd::prelude::*;

use crate::elements::axis::{AxisDefaultStyleClass, TickDefaultStyleClass};
use crate::elements::function::FunctionDefaultStyleClass;

verus! {

/// Which rules of each default class the stylesheet holds. A class whose
/// rules are all off is left out; so is a class that no element uses.
#[derive(Clone, Copy, PartialEq, Eq, Debug, Structural)]
pub struct DefaultGlobalStyleClasses {
    pub function: FunctionDefaultStyleClass,
    pub axis: AxisDefaultStyleClass,
    pub tick: TickDefaultStyleClass,
}

impl DefaultGlobalStyleClasses {
    /// Every rule of every default class.
    pub fn enabled() -> (r: DefaultGlobalStyleClasses)
        ensures
            r.function == FunctionDefaultStyleClass::all(true),
            r.axis == (AxisDefaultStyleClass { apply_stroke_width: true, apply_stroke: true }),
            r.tick == (TickDefaultStyleClass { apply_stroke_width: true, apply_stroke: true }),
    {
        DefaultGlobalStyleClasses {
            function: FunctionDefaultStyleClass::enabled(),
            axis: AxisDefaultStyleClass::enabled(),
            tick: TickDefaultStyleClass::enabled(),
        }
    }

    /// No default class at all.
    pub fn disabled() -> (r: DefaultGlobalStyleClasses)
        ensures
            r.function == FunctionDefaultStyleClass::all(false),
            r.axis == (AxisDefaultStyleClass { apply_stroke_width: false, apply_stroke: false }),
            r.tick == (TickDefaultStyleClass { apply_stroke_width: false, apply_stroke: false }),
    {
        DefaultGlobalStyleClasses {
            function: FunctionDefaultStyleClass::disabled(),
            axis: AxisDefaultStyleClass::disabled(),
            tick: TickDefaultStyleClass::disabled(),
        }
    }
}

/// The CSS included in the plot. With no default class in use and no custom
/// CSS, no `<style>` element is written.
#[derive(Clone, Copy, Debug)]
pub struct Stylesheet<'a> {
    /// The default classes to include.
    pub defaults: DefaultGlobalStyleClasses,
    /// CSS written after the default classes.
    pub custom: Option<&'a str>,
}

impl<'a> Stylesheet<'a> {
    /// All default classes and no custom CSS.
    pub fn new_default() -> (r: Stylesheet<'a>)
        ensures
            r.defaults.function == FunctionDefaultStyleClass::all(true),
            r.defaults.axis == (AxisDefaultStyleClass { apply_stroke_width: true, apply_stroke: true }),
            r.defaults.tick == (TickDefaultStyleClass { apply_stroke_width: true, apply_stroke: true }),
            r.custom is None,
    {
        Stylesheet { defaults: DefaultGlobalStyleClasses::enabled(), custom: None }
    }
}

} // verus!
