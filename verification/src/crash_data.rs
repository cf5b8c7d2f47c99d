//! What the orchestrator reads out of a crash file, which is a JSON object.

use vstd::prelude::*;
use vstd::string::*;

use crate::options;
use crate::strmap;
use crate::text;
use crate::text::first_lines;

verus! {

// ---------------------------------------------------------------------------
// JSON
// ---------------------------------------------------------------------------

/// Whether `serde_json` reads a text as JSON.
pub uninterp spec fn json_valid(json: Seq<char>) -> bool;

/// Why `serde_json` does not read a text as JSON, in its own words.
pub uninterp spec fn json_error(json: Seq<char>) -> Seq<char>;

/// The number that `serde_json` reads in a member of a JSON text, if there is one.
pub uninterp spec fn json_number(json: Seq<char>, member: Seq<char>) -> Option<u64>;

/// How `serde_json` writes the member that it has read in a JSON text.
pub uninterp spec fn json_text(json: Seq<char>, member: Seq<char>) -> Seq<char>;

/// The string that `serde_json` reads in a member of a member of a JSON text, if
/// there is one.
pub uninterp spec fn json_string(json: Seq<char>, outer: Seq<char>, inner: Seq<char>) -> Option<Seq<char>>;

/// `serde_json::from_str` into a `serde_json::Value`, then `Value::as_u64` of a
/// member, found by `Index`, or `Display` of the `serde_json::Error`. Whether the text
/// is read, and why it is not, are functions of the text, and the number is one of the
/// text and of the name of the member.
#[verifier::external_body]
fn read_number(json: &str, member: &str) -> (number: Result<Option<u64>, String>)
    ensures
        number is Ok <==> json_valid(json@),
        number matches Ok(n) ==> n == json_number(json@, member@),
        number matches Err(reason) ==> reason@ == json_error(json@),
{
    serde_json::from_str::<serde_json::Value>(json)
        .map(|value| value[member].as_u64())
        .map_err(|error| error.to_string())
}

/// `serde_json::from_str` into a `serde_json::Value`, then its `Display` of a
/// member, found by `Index`, or `Display` of the `serde_json::Error`. Whether the text
/// is read, and why it is not, are functions of the text, and what is written is one of
/// the text and of the name of the member.
#[verifier::external_body]
fn read_text(json: &str, member: &str) -> (text: Result<String, String>)
    ensures
        text is Ok <==> json_valid(json@),
        text matches Ok(t) ==> t@ == json_text(json@, member@),
        text matches Err(reason) ==> reason@ == json_error(json@),
{
    serde_json::from_str::<serde_json::Value>(json)
        .map(|value| value[member].to_string())
        .map_err(|error| error.to_string())
}

/// `serde_json::from_str` into a `serde_json::Value`, then `Value::as_str` of a
/// member of a member, both found by `Index`, or `Display` of the `serde_json::Error`.
/// Whether the text is read, and why it is not, are functions of the text, and the
/// string is one of the text and of the names of the members.
#[verifier::external_body]
fn read_string(json: &str, outer: &str, inner: &str) -> (string: Result<Option<String>, String>)
    ensures
        string is Ok <==> json_valid(json@),
        string matches Ok(s) ==> options::text_of(s) == json_string(json@, outer@, inner@),
        string matches Err(reason) ==> reason@ == json_error(json@),
{
    serde_json::from_str::<serde_json::Value>(json)
        .map(|value| value[outer][inner].as_str().map(String::from))
        .map_err(|error| error.to_string())
}

// ---------------------------------------------------------------------------
// Crash files
// ---------------------------------------------------------------------------

/// A crash file is not JSON; with the reason.
#[derive(Debug, Clone)]
pub struct NotJson {
    pub reason: String,
}

/// The seed that names a crash: zero if the crash file has none.
pub fn seed_or_zero(member: Option<u64>) -> (seed: u64)
    ensures
        seed == match member {
            Some(n) => n,
            None => 0,
        },
{
    match member {
        Some(n) => n,
        None => 0,
    }
}

/// The seed that names the crash of a crash file.
pub fn crash_seed(crash_json: &String) -> (seed: Result<u64, NotJson>)
    ensures
        seed is Ok <==> json_valid(crash_json@),
        seed matches Err(error) ==> error.reason@ == json_error(crash_json@),
        seed matches Ok(n) ==> n == match json_number(crash_json@, "iteration_seed"@) {
            Some(number) => number,
            None => 0,
        },
{
    match read_number(crash_json.as_str(), "iteration_seed") {
        Ok(member) => Ok(seed_or_zero(member)),
        Err(reason) => Err(NotJson { reason }),
    }
}

/// What is shown of a crash: three members of the crash file, as JSON text, and the
/// command that reproduces the crash.
#[derive(Debug, Clone)]
pub struct CrashParts {
    pub iteration_seed: String,
    pub steps_completed: String,
    pub violation: String,
    pub command: Option<String>,
}

/// Whether these are the parts of a crash file.
pub open spec fn shows(parts: Result<CrashParts, NotJson>, crash_json: Seq<char>) -> bool {
    &&& parts is Ok <==> json_valid(crash_json)
    &&& parts matches Err(error) ==> error.reason@ == json_error(crash_json)
    &&& parts matches Ok(p) ==> {
        &&& p.iteration_seed@ == json_text(crash_json, "iteration_seed"@)
        &&& p.steps_completed@ == json_text(crash_json, "steps_completed"@)
        &&& p.violation@ == json_text(crash_json, "violation"@)
        &&& options::text_of(p.command) == json_string(crash_json, "reproduce"@, "command"@)
    }
}

/// Reads what is shown of a crash.
pub fn read_parts(crash_json: &String) -> (parts: Result<CrashParts, NotJson>)
    ensures
        shows(parts, crash_json@),
{
    let json: &str = crash_json.as_str();
    let iteration_seed = match read_text(json, "iteration_seed") {
        Ok(text) => text,
        Err(reason) => {
            return Err(NotJson { reason });
        },
    };
    let steps_completed = match read_text(json, "steps_completed") {
        Ok(text) => text,
        Err(reason) => {
            return Err(NotJson { reason });
        },
    };
    let violation = match read_text(json, "violation") {
        Ok(text) => text,
        Err(reason) => {
            return Err(NotJson { reason });
        },
    };
    let command = match read_string(json, "reproduce", "command") {
        Ok(command) => command,
        Err(reason) => {
            return Err(NotJson { reason });
        },
    };
    Ok(CrashParts { iteration_seed, steps_completed, violation, command })
}

/// How many lines of a crash file are shown that is not JSON.
pub const RAW_LINES: usize = 10;

/// How what was read of a crash is shown, line by line; of a crash file that is not
/// JSON, its first lines.
pub open spec fn summary_lines(parts: Result<CrashParts, NotJson>, crash_json: Seq<char>) -> Seq<Seq<char>> {
    match parts {
        Ok(p) => {
            let lines = seq![
                "  iteration_seed: "@ + p.iteration_seed@,
                "  steps_completed: "@ + p.steps_completed@,
                "  violation: "@ + p.violation@,
            ];
            match p.command {
                Some(command) => lines.push("  REPRODUCE: "@ + command@),
                None => lines,
            }
        },
        Err(_) => text::lines_of(crash_json, RAW_LINES as nat).map_values(|line: Seq<char>| "    "@ + line),
    }
}

/// How what was read of a crash is shown, line by line.
pub fn summarize(parts: &Result<CrashParts, NotJson>, crash_json: &String) -> (lines: Vec<String>)
    ensures
        strmap::text_views(lines@) == summary_lines(*parts, crash_json@),
{
    let mut lines: Vec<String> = Vec::new();
    match parts {
        Ok(p) => {
            lines.push(String::from_str("  iteration_seed: ").concat(p.iteration_seed.as_str()));
            lines.push(String::from_str("  steps_completed: ").concat(p.steps_completed.as_str()));
            lines.push(String::from_str("  violation: ").concat(p.violation.as_str()));
            if let Some(command) = &p.command {
                lines.push(String::from_str("  REPRODUCE: ").concat(command.as_str()));
            }
        },
        Err(_) => {
            let raw = first_lines(crash_json.as_str(), RAW_LINES);
            let ghost raw_texts = strmap::text_views(raw@);
            let mut i: usize = 0;
            while i < raw.len()
                invariant
                    i <= raw@.len(),
                    raw_texts == strmap::text_views(raw@),
                    strmap::text_views(lines@) == raw_texts.take(i as int).map_values(
                        |line: Seq<char>| "    "@ + line,
                    ),
                decreases raw.len() - i,
            {
                let ghost before = lines@;
                let line = String::from_str("    ").concat(raw[i].as_str());
                let ghost line_text = line@;
                lines.push(line);
                assert(strmap::text_views(lines@) =~= strmap::text_views(before).push(line_text));
                assert(raw_texts.take(i + 1) =~= raw_texts.take(i as int).push(raw@[i as int]@));
                i = i + 1;
            }
            assert(raw_texts.take(i as int) =~= raw_texts);
        },
    }
    assert(strmap::text_views(lines@) =~= summary_lines(*parts, crash_json@));
    lines
}

/// How a crash file is shown, line by line.
pub fn show_crash(crash_json: &String) -> (lines: Vec<String>)
    ensures
        exists|parts: Result<CrashParts, NotJson>| #[trigger]
            shows(parts, crash_json@) && strmap::text_views(lines@) == summary_lines(parts, crash_json@),
{
    let parts = read_parts(crash_json);
    assert(shows(parts, crash_json@));
    summarize(&parts, crash_json)
}

// ---------------------------------------------------------------------------
// Laws
// ---------------------------------------------------------------------------

/// What is shown of a crash file that is JSON are its three members, each as it is written,
/// and the command, where there is one.
pub proof fn crashes_are_shown_by_their_members(parts: CrashParts, crash_json: Seq<char>)
    requires
        shows(Ok(parts), crash_json),
    ensures
        json_valid(crash_json),
        ({
            let lines = summary_lines(Ok(parts), crash_json);
            &&& lines.len() == if json_string(crash_json, "reproduce"@, "command"@) is Some {
                4nat
            } else {
                3nat
            }
            &&& lines[0] == "  iteration_seed: "@ + json_text(crash_json, "iteration_seed"@)
            &&& lines[1] == "  steps_completed: "@ + json_text(crash_json, "steps_completed"@)
            &&& lines[2] == "  violation: "@ + json_text(crash_json, "violation"@)
            &&& json_string(crash_json, "reproduce"@, "command"@) matches Some(command) ==> lines[3]
                == "  REPRODUCE: "@ + command
        }),
{
}

/// What is shown of a crash file that is not JSON are its first ten lines, each moved in by
/// four spaces, and the reason is the one that was given for it.
pub proof fn other_crash_files_are_shown_as_they_are(error: NotJson, crash_json: Seq<char>, i: int)
    requires
        shows(Err(error), crash_json),
    ensures
        !json_valid(crash_json),
        error.reason@ == json_error(crash_json),
        summary_lines(Err(error), crash_json).len() == text::lines_of(crash_json, 10).len(),
        0 <= i < text::lines_of(crash_json, 10).len() ==> {
            let line = summary_lines(Err(error), crash_json)[i];
            line.len() >= 4 && line.take(4) == "    "@ && line.skip(4) == text::lines_of(crash_json, 10)[i]
        },
{
    reveal_strlit("    ");
    if 0 <= i < text::lines_of(crash_json, 10).len() {
        let line = summary_lines(Err(error), crash_json)[i];
        assert(line == "    "@ + text::lines_of(crash_json, 10)[i]);
        assert(line.take(4) =~= "    "@);
        assert(line.skip(4) =~= text::lines_of(crash_json, 10)[i]);
    }
}

} // verus!
