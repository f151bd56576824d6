//! A kick-drum voice in fixed point: a pitch-swept tone and a click transient
//! under an amplitude contour, generated one sample per call.
//!
//! Everything here is integer arithmetic. Levels and samples are millionths of
//! full scale, times are microseconds or whole samples, frequencies are
//! microhertz. The sine and the exponential are not computed: a voice reads
//! them from two tables that it is given when it is built.
//!
//! Each stage has a mathematical model, a plain structure with functions that
//! say what the stage's value is and what each operation does to it. The
//! executable types are related to their models by `view`, every operation is
//! proved to do what its model says, and the laws of the engine are proved of
//! the models.
//!
//! - [`units`]: the fixed-point scale and scaling by a ratio.
//! - [`table`]: the waveform and decay tables.
//! - [`oscillator`]: the phase accumulator.
//! - [`envelope`]: the amplitude envelope and the exponential sweep.
//! - [`kick`]: the voice that combines them.
//! - [`output`]: conversion to 16-bit formats and the filling of buffers.
pub mod envelope;
pub mod kick;
pub mod oscillator;
pub mod output;
pub mod table;
pub mod units;
