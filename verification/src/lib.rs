//! Verified bookkeeping and case logic for a transposed-convolution benchmark
//! probe: live and peak allocation counting, deterministic test-value
//! generation, and the benchmark case tables with their selection rules.

pub mod counter;
pub mod options;
pub mod probe;
pub mod sweep;
pub mod text;
pub mod values;

pub use counter::{allocated, AllocCounter, AllocEvent, CounterState};
pub use probe::{is_selected, probe_cases, ProbeCase};
pub use sweep::{cases, parse_dtype, SweepCase, SweepDtype};
pub use text::{filter_matches, push_decimal, same_text};
pub use values::{shape_volume, tensor_codes, value_codes, xorshift_step};
