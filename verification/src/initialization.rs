//! What the start-up takes from the command line and hands to the engine.

use vstd::prelude::*;
use crate::errors::ConfigError;
use crate::text::chars_of;
use crate::text::starts_with;

verus! {

/// The thermometers on the 1-wire bus, in the order in which they are
/// polled. Each entry holds the sensor's name, the path of its driver file,
/// the number of readings in its moving average, and the change in
/// millidegrees from which a reading is reported at once.
pub struct SensorW1 {
    pub thermometer: Vec<(String, String, usize, u64)>,
}

/// What a command-line argument that names the configuration file starts
/// with.
pub open spec fn config_flag() -> Seq<char> {
    "--config="@
}

/// The argument names the configuration file.
pub open spec fn names_config(arg: Seq<char>) -> bool {
    config_flag().is_prefix_of(arg)
}

/// Argument number `i` is the first that names the configuration file.
pub open spec fn first_config_arg(args: Seq<String>, i: int) -> bool {
    &&& 0 <= i < args.len()
    &&& names_config(args[i]@)
    &&& forall|j: int| 0 <= j < i ==> !names_config(#[trigger] args[j]@)
}

/// Finds the path of the configuration file among the command-line
/// arguments: what follows `--config=` in the first argument that starts so.
/// Without such an argument the start-up fails.
pub fn config_path(args: &Vec<String>) -> (result: Result<String, ConfigError>)
    ensures
        match result {
            Ok(path) => exists|i: int|
                first_config_arg(args@, i) && path@ == args@[i]@.skip(
                    config_flag().len() as int,
                ),
            Err(e) => e.0@ == "missing --config=<config_path>"@ && forall|i: int|
                0 <= i < args.len() ==> !names_config(#[trigger] args@[i]@),
        },
{
    let flag = chars_of("--config=");
    let mut i: usize = 0;
    while i < args.len()
        invariant
            i <= args.len(),
            flag@ == config_flag(),
            forall|j: int| 0 <= j < i ==> !names_config(#[trigger] args@[j]@),
        decreases args.len() - i,
    {
        let arg = args[i].as_str();
        let chars = chars_of(arg);
        if starts_with(&chars, &flag) {
            let path = arg.substring_char(flag.len(), chars.len());
            assert(first_config_arg(args@, i as int));
            return Ok(String::from_str(path));
        }
        i = i + 1;
    }
    Err(ConfigError::from("missing --config=<config_path>"))
}

} // verus!
