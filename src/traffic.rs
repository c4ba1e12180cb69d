//! Fixed phase durations of a traffic light.
use vstd::prelude::*;

verus! {

/// Seconds the red phase lasts.
pub const RED_TIME: u32 = 20;

/// Seconds the green phase lasts.
pub const GREEN_TIME: u32 = 10;

/// Seconds the yellow phase lasts.
pub const YELLOW_TIME: u32 = 5;

/// A phase of a traffic light.
#[derive(Clone, Copy, Debug, PartialEq, Eq, Structural)]
pub enum TrafficLight {
    Red,
    Green,
    Yellow,
}

/// Something that lasts a fixed number of seconds.
pub trait Traffic {
    /// The duration, as a value.
    spec fn duration(&self) -> u32;

    /// The duration in seconds.
    fn time(&self) -> (r: u32)
        ensures
            r == self.duration(),
    ;
}

impl Traffic for TrafficLight {
    open spec fn duration(&self) -> u32 {
        match self {
            TrafficLight::Red => RED_TIME,
            TrafficLight::Green => GREEN_TIME,
            TrafficLight::Yellow => YELLOW_TIME,
        }
    }

    fn time(&self) -> (r: u32) {
        match self {
            TrafficLight::Red => RED_TIME,
            TrafficLight::Green => GREEN_TIME,
            TrafficLight::Yellow => YELLOW_TIME,
        }
    }
}

} // verus!
