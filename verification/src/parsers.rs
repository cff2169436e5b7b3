//! One sanitizer for each kind of log file, and the choice among them by the
//! file's name.

pub mod game;
pub mod ip_filtering;
pub mod runtimes;

use crate::parsers::game::{game_log, process_game_log};
use crate::parsers::ip_filtering::redacted;
use crate::parsers::runtimes::{process_runtimes_log, sanitized_lines};
use crate::text::{chars_of, equals, join_with, lines_of, starts_with, str_equals};
use vstd::prelude::*;

verus! {

/// How the contents of a log file are made fit to publish.
#[derive(Clone, Copy, Debug, PartialEq, Eq, Structural)]
pub enum SanitizationStrategy {
    /// Line by line, as the game log.
    GameLog,
    /// Line by line, as the runtime log.
    RuntimeLog,
    /// As they are.
    Passthrough,
}

/// The files that hold nothing to keep back.
pub open spec fn is_public_name(name: Seq<char>) -> bool {
    ||| name == "asset.log"@
    ||| name == "asset.log.json"@
    ||| name == "atmos.html"@
    ||| name == "attack.log.json"@
    ||| name == "attack.log"@
    ||| name == "botany.html"@
    ||| name == "cargo.html"@
    ||| name == "circuit.html"@
    ||| name == "cloning.log.json"@
    ||| name == "cloning.log"@
    ||| name == "crafting.html"@
    ||| name == "deaths.html"@
    ||| name == "dynamic.json"@
    ||| name == "dynamic.log.json"@
    ||| name == "dynamic.log"@
    ||| name == "econ.log.json"@
    ||| name == "econ.log"@
    ||| name == "economy.log.json"@
    ||| name == "economy.log"@
    ||| name == "engine.html"@
    ||| name == "experimentor.html"@
    ||| name == "gravity.html"@
    ||| name == "hallucinations.html"@
    ||| name == "harddel.log.json"@
    ||| name == "harddel.log"@
    ||| name == "harddels.log.json"@
    ||| name == "harddels.log"@
    ||| name == "hypertorus.html"@
    ||| name == "id_card_changes.html"@
    ||| name == "init_profiler.json"@
    ||| name == "init_times.json"@
    ||| name == "initialize.log.json"@
    ||| name == "initialize.log"@
    ||| name == "job_debug.log.json"@
    ||| name == "job_debug.log"@
    ||| name == "kudzu.html"@
    ||| name == "manifest.log.json"@
    ||| name == "manifest.log"@
    ||| name == "map_errors.log.json"@
    ||| name == "map_errors.log"@
    ||| name == "mecha.log.json"@
    ||| name == "mecha.log"@
    ||| name == "mob_tags.log.json"@
    ||| name == "mob_tags.log"@
    ||| name == "nanites.html"@
    ||| name == "newscaster.json"@
    ||| name == "overlay.log.json"@
    ||| name == "overlay.log"@
    ||| name == "paper.log.json"@
    ||| name == "paper.log"@
    ||| name == "pda.log.json"@
    ||| name == "pda.log"@
    ||| name == "portals.html"@
    ||| name == "presents.html"@
    ||| name == "profiler.json"@
    ||| name == "qdel.log.json"@
    ||| name == "qdel.log"@
    ||| name == "radiation.html"@
    ||| name == "records.html"@
    ||| name == "research.html"@
    ||| name == "round_end_data.html"@
    ||| name == "round_end_data.json"@
    ||| name == "sendmaps.json"@
    ||| name == "shuttle.log.json"@
    ||| name == "shuttle.log"@
    ||| name == "signal.log.json"@
    ||| name == "signal.log"@
    ||| name == "signals.log.json"@
    ||| name == "signals.log"@
    ||| name == "silicon.log.json"@
    ||| name == "silicon.log"@
    ||| name == "silo.json"@
    ||| name == "silo.log.json"@
    ||| name == "silo.log"@
    ||| name == "singulo.html"@
    ||| name == "speech_indicators.log.json"@
    ||| name == "speech_indicators.log"@
    ||| name == "supermatter.html"@
    ||| name == "target_zone_switch.json"@
    ||| name == "telecomms.log.json"@
    ||| name == "telecomms.log"@
    ||| name == "telesci.html"@
    ||| name == "tool.log.json"@
    ||| name == "tool.log"@
    ||| name == "tools.log.json"@
    ||| name == "tools.log"@
    ||| name == "uplink.log.json"@
    ||| name == "uplink.log"@
    ||| name == "virus.log.json"@
    ||| name == "virus.log"@
    ||| name == "wires.html"@
}

/// The strategy for a file called `filename` in a directory called
/// `directory`: the game log and the runtime log have their own; the files
/// of `is_public_name`, the files whose name begins with `perf-` and the
/// files of a directory called `profiler` pass as they are; any other file
/// is not published.
pub open spec fn strategy_for(filename: Seq<char>, directory: Option<Seq<char>>) -> Option<
    SanitizationStrategy,
> {
    if filename == "game.log"@ {
        Some(SanitizationStrategy::GameLog)
    } else if filename == "runtime.log"@ {
        Some(SanitizationStrategy::RuntimeLog)
    } else if is_public_name(filename) || "perf-"@.is_prefix_of(filename) || directory == Some(
        "profiler"@,
    ) {
        Some(SanitizationStrategy::Passthrough)
    } else {
        None
    }
}

fn has_public_name(name: &[char]) -> (b: bool)
    ensures
        b == is_public_name(name@),
{
    equals(name, "asset.log") || equals(name, "asset.log.json") || equals(name, "atmos.html") || equals(name, "attack.log.json") || equals(name, "attack.log") || equals(name, "botany.html") || equals(name, "cargo.html") || equals(name, "circuit.html") || equals(name, "cloning.log.json") || equals(name, "cloning.log") || equals(name, "crafting.html") || equals(name, "deaths.html") || equals(name, "dynamic.json") || equals(name, "dynamic.log.json") || equals(name, "dynamic.log") || equals(name, "econ.log.json") || equals(name, "econ.log") || equals(name, "economy.log.json") || equals(name, "economy.log") || equals(name, "engine.html") || equals(name, "experimentor.html") || equals(name, "gravity.html") || equals(name, "hallucinations.html") || equals(name, "harddel.log.json") || equals(name, "harddel.log") || equals(name, "harddels.log.json") || equals(name, "harddels.log") || equals(name, "hypertorus.html") || equals(name, "id_card_changes.html") || equals(name, "init_profiler.json") || equals(name, "init_times.json") || equals(name, "initialize.log.json") || equals(name, "initialize.log") || equals(name, "job_debug.log.json") || equals(name, "job_debug.log") || equals(name, "kudzu.html") || equals(name, "manifest.log.json") || equals(name, "manifest.log") || equals(name, "map_errors.log.json") || equals(name, "map_errors.log") || equals(name, "mecha.log.json") || equals(name, "mecha.log") || equals(name, "mob_tags.log.json") || equals(name, "mob_tags.log") || equals(name, "nanites.html") || equals(name, "newscaster.json") || equals(name, "overlay.log.json") || equals(name, "overlay.log") || equals(name, "paper.log.json") || equals(name, "paper.log") || equals(name, "pda.log.json") || equals(name, "pda.log") || equals(name, "portals.html") || equals(name, "presents.html") || equals(name, "profiler.json") || equals(name, "qdel.log.json") || equals(name, "qdel.log") || equals(name, "radiation.html") || equals(name, "records.html") || equals(name, "research.html") || equals(name, "round_end_data.html") || equals(name, "round_end_data.json") || equals(name, "sendmaps.json") || equals(name, "shuttle.log.json") || equals(name, "shuttle.log") || equals(name, "signal.log.json") || equals(name, "signal.log") || equals(name, "signals.log.json") || equals(name, "signals.log") || equals(name, "silicon.log.json") || equals(name, "silicon.log") || equals(name, "silo.json") || equals(name, "silo.log.json") || equals(name, "silo.log") || equals(name, "singulo.html") || equals(name, "speech_indicators.log.json") || equals(name, "speech_indicators.log") || equals(name, "supermatter.html") || equals(name, "target_zone_switch.json") || equals(name, "telecomms.log.json") || equals(name, "telecomms.log") || equals(name, "telesci.html") || equals(name, "tool.log.json") || equals(name, "tool.log") || equals(name, "tools.log.json") || equals(name, "tools.log") || equals(name, "uplink.log.json") || equals(name, "uplink.log") || equals(name, "virus.log.json") || equals(name, "virus.log") || equals(name, "wires.html")
}

/// The strategy for a file called `filename` in a directory called
/// `directory`, or `None` for a file that is not published.
pub fn get_file_sanitization_strategy(filename: &str, directory: Option<&str>) -> (r: Option<
    SanitizationStrategy,
>)
    ensures
        r == strategy_for(filename@, directory.deep_view()),
{
    let chars = chars_of(filename);
    let name = chars.as_slice();
    if equals(name, "game.log") {
        return Some(SanitizationStrategy::GameLog);
    }
    if equals(name, "runtime.log") {
        return Some(SanitizationStrategy::RuntimeLog);
    }
    if has_public_name(name) || starts_with(name, "perf-") {
        return Some(SanitizationStrategy::Passthrough);
    }
    match directory {
        Some(directory) => {
            if str_equals(directory, "profiler") {
                Some(SanitizationStrategy::Passthrough)
            } else {
                None
            }
        },
        None => None,
    }
}

/// What `strategy` publishes of `contents`.
pub open spec fn sanitized_contents(strategy: SanitizationStrategy, contents: Seq<char>) -> Seq<
    char,
> {
    match strategy {
        SanitizationStrategy::GameLog => game_log(lines_of(redacted(contents))),
        SanitizationStrategy::RuntimeLog => join_with(sanitized_lines(lines_of(contents)), "\n"@),
        SanitizationStrategy::Passthrough => contents,
    }
}

impl SanitizationStrategy {
    /// The contents of a file as they are published.
    pub fn sanitize(self, contents: String) -> (r: String)
        ensures
            r@ == sanitized_contents(self, contents@),
    {
        match self {
            SanitizationStrategy::GameLog => process_game_log(contents),
            SanitizationStrategy::RuntimeLog => process_runtimes_log(contents),
            SanitizationStrategy::Passthrough => contents,
        }
    }
}

} // verus!
