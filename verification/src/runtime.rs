//! The course of the fix inside the game: what is decided between one system call and the next,
//! and what is logged about it.
use vstd::prelude::*;

use crate::config::{
    error_message, parse_camera_config, read_file, views, Camera, CameraConfig, LineError,
};
use crate::text::{
    decimal, decimal_is_unique, hexadecimal, is_part, lemma_decimal_digits, lemma_part_of_three,
    lemma_part_stays, lemma_split_once_unique, push_decimal, push_hexadecimal, split_once,
};
use vstd::arithmetic::power2::lemma2_to64;
use vstd::string::StringExecFns;
use vstd::utf8::{decode_utf8, valid_utf8};

verus! {

/// How many log file names are tried.
pub const LOG_FILE_ATTEMPTS: u32 = 100;

/// How often the game's client module is looked for, and how long to wait in between.
pub const MODULE_ATTEMPTS: u32 = 600;

pub const MODULE_RETRY_MILLISECONDS: u32 = 100;

/// A number as the log shows addresses and masks.
pub open spec fn prefixed_hex(n: nat) -> Seq<char> {
    "0x"@ + hexadecimal(n)
}

/// A truth value in words.
pub open spec fn truth_word(value: bool) -> Seq<char> {
    if value {
        "true"@
    } else {
        "false"@
    }
}

/// Appends a number as the log shows addresses and masks.
pub fn push_prefixed_hex(out: &mut String, n: usize)
    ensures
        final(out)@ == old(out)@ + prefixed_hex(n as nat),
{
    let ghost start = out@;
    out.append("0x");
    push_hexadecimal(out, n as u64);
    assert(out@ =~= start + prefixed_hex(n as nat));
}

fn word_of(value: bool) -> (r: &'static str)
    ensures
        r@ == truth_word(value),
{
    if value {
        "true"
    } else {
        "false"
    }
}

// ---------------------------------------------------------------------------------------------
// The log file.
// ---------------------------------------------------------------------------------------------

/// The name of a log file.
pub open spec fn log_file_name_of(stamp: nat, suffix: nat) -> Seq<char> {
    "autodirector_fix-"@ + decimal(stamp) + "-"@ + decimal(suffix) + ".log"@
}

/// The name of a log file: the time in milliseconds and the number of the attempt.
pub fn log_file_name(stamp: u128, suffix: u32) -> (r: String)
    ensures
        r@ == log_file_name_of(stamp as nat, suffix as nat),
{
    let mut name: String = "autodirector_fix-".to_owned();
    push_decimal(&mut name, stamp);
    name.append("-");
    push_decimal(&mut name, suffix as u128);
    name.append(".log");
    name
}

/// The line of the log that carries a message.
pub open spec fn log_line_of(message: Seq<char>) -> Seq<char> {
    "[autodirector-fix] "@ + message
}

/// Law: a line of the log is the message behind a fixed beginning, whole.
pub proof fn log_lines_carry_the_whole_message(message: Seq<char>)
    ensures
        log_line_of(message).take(19) == "[autodirector-fix] "@,
        log_line_of(message).skip(19) == message,
{
    reveal_strlit("[autodirector-fix] ");
    assert(log_line_of(message).take(19) =~= "[autodirector-fix] "@);
    assert(log_line_of(message).skip(19) =~= message);
}

/// The line of the log that carries a message.
pub fn log_line(message: &str) -> (r: String)
    ensures
        r@ == log_line_of(message@),
{
    let mut line: String = "[autodirector-fix] ".to_owned();
    line.append(message);
    line
}

/// What follows an attempt to create a log file.
#[derive(Clone, Copy, Debug, PartialEq, Eq, Structural)]
pub enum LogStep {
    /// The file is there.
    Opened,
    /// Try the name with this number.
    Try(u32),
    /// There will be no log.
    GiveUp,
}

/// What follows the attempt with number `suffix` to create a log file.
pub open spec fn log_step(suffix: u32, created: bool) -> LogStep {
    if created {
        LogStep::Opened
    } else if suffix + 1 < LOG_FILE_ATTEMPTS {
        LogStep::Try((suffix + 1) as u32)
    } else {
        LogStep::GiveUp
    }
}

/// What follows when `count` attempts in a row have failed.
pub open spec fn after_failed_attempts(count: nat) -> LogStep
    decreases count,
{
    if count == 0 {
        LogStep::Try(0)
    } else {
        match after_failed_attempts((count - 1) as nat) {
            LogStep::Try(suffix) => log_step(suffix, false),
            step => step,
        }
    }
}

/// Law: the attempts have the numbers from zero on, each once, and end at the limit.
pub proof fn attempts_are_numbered(count: nat)
    ensures
        after_failed_attempts(count) == if count < LOG_FILE_ATTEMPTS {
            LogStep::Try(count as u32)
        } else {
            LogStep::GiveUp
        },
    decreases count,
{
    if count > 0 {
        attempts_are_numbered((count - 1) as nat);
    }
}

/// Law: a file that was created ends the attempts, whichever it was. One that was not leads to the
/// next number, unless that is the limit or beyond.
pub proof fn a_created_file_is_taken(suffix: u32)
    ensures
        log_step(suffix, true) == LogStep::Opened,
        log_step(suffix, false) is GiveUp <==> suffix >= 99,
        suffix < 99 ==> log_step(suffix, false) == LogStep::Try((suffix + 1) as u32),
{
}

/// Law: log files with another time or another number have another name.
pub proof fn log_file_names_differ(stamp: nat, suffix: nat, other_stamp: nat, other_suffix: nat)
    requires
        (stamp, suffix) != (other_stamp, other_suffix),
    ensures
        log_file_name_of(stamp, suffix) != log_file_name_of(other_stamp, other_suffix),
{
    if log_file_name_of(stamp, suffix) == log_file_name_of(other_stamp, other_suffix) {
        lemma_name_parts(stamp, suffix);
        lemma_name_parts(other_stamp, other_suffix);
        decimal_is_unique(stamp, other_stamp);
        decimal_is_unique(suffix, other_suffix);
    }
}

/// Law: the time and the number can be read off a name: behind the fixed beginning, the first dash
/// parts them.
pub proof fn log_file_names_show_time_and_number(stamp: nat, suffix: nat)
    ensures
        ({
            let name = log_file_name_of(stamp, suffix);
            &&& name.take(17) == "autodirector_fix-"@
            &&& split_once(name.skip(17), '-') == Some(
                (decimal(stamp), decimal(suffix) + ".log"@),
            )
        }),
{
    reveal_strlit("autodirector_fix-");
    reveal_strlit("-");
    let name = log_file_name_of(stamp, suffix);
    let second = decimal(suffix) + ".log"@;
    assert(name.take(17) =~= "autodirector_fix-"@);
    assert(name.skip(17) =~= decimal(stamp).push('-') + second);
    lemma_decimal_digits(stamp);
    lemma_split_once_unique(name.skip(17), '-', decimal(stamp), second);
}

/// The two numbers can be read off a name: behind the fixed beginning, the first dash parts them.
proof fn lemma_name_parts(stamp: nat, suffix: nat)
    ensures
        ({
            let name = log_file_name_of(stamp, suffix);
            let rest = name.skip(17);
            &&& split_once(rest, '-') matches Some((first, second)) && first == decimal(stamp)
                && second.take(second.len() - 4) == decimal(suffix)
        }),
{
    reveal_strlit("autodirector_fix-");
    reveal_strlit("-");
    reveal_strlit(".log");
    let rest = log_file_name_of(stamp, suffix).skip(17);
    let first = decimal(stamp);
    let second = decimal(suffix) + ".log"@;
    lemma_decimal_digits(stamp);
    assert(rest =~= first.push('-') + second);
    assert(second.take(second.len() - 4) =~= decimal(suffix));
    lemma_split_once_unique(rest, '-', first, second);
}

/// What follows the attempt with number `suffix` to create a log file.
pub fn after_log_attempt(suffix: u32, created: bool) -> (r: LogStep)
    ensures
        r == log_step(suffix, created),
{
    if created {
        LogStep::Opened
    } else if suffix < LOG_FILE_ATTEMPTS - 1 {
        LogStep::Try(suffix + 1)
    } else {
        LogStep::GiveUp
    }
}

// ---------------------------------------------------------------------------------------------
// The wait for the game's client module.
// ---------------------------------------------------------------------------------------------

/// What follows a look for the client module.
#[derive(Clone, Copy, Debug, PartialEq, Eq, Structural)]
pub enum WaitStep {
    /// The module is there: install the patch.
    Initialize,
    /// Wait, and look again under this number.
    Retry(u32),
    /// Wait, and give up.
    TimeOut,
}

/// What follows look number `attempt` for the client module; looks count from zero.
pub open spec fn wait_step(attempt: u32, found: bool) -> WaitStep {
    if found {
        WaitStep::Initialize
    } else if attempt + 1 < MODULE_ATTEMPTS {
        WaitStep::Retry((attempt + 1) as u32)
    } else {
        WaitStep::TimeOut
    }
}

/// What follows when `count` looks in a row, at least one, have been in vain.
pub open spec fn after_vain_looks(count: nat) -> WaitStep
    decreases count,
{
    if count <= 1 {
        wait_step(0, false)
    } else {
        match after_vain_looks((count - 1) as nat) {
            WaitStep::Retry(attempt) => wait_step(attempt, false),
            step => step,
        }
    }
}

/// Law: the module is looked for as often as the limit says before the wait is given up.
pub proof fn looks_are_limited(count: nat)
    requires
        count > 0,
    ensures
        after_vain_looks(count) == if count < MODULE_ATTEMPTS {
            WaitStep::Retry(count as u32)
        } else {
            WaitStep::TimeOut
        },
    decreases count,
{
    if count > 1 {
        looks_are_limited((count - 1) as nat);
    }
}

/// Law: a module that is there is patched, whichever look has found it. One that is not is looked
/// for again under the next number, unless that is the limit or beyond.
pub proof fn a_found_module_is_patched(attempt: u32)
    ensures
        wait_step(attempt, true) == WaitStep::Initialize,
        wait_step(attempt, false) is TimeOut <==> attempt >= 599,
        attempt < 599 ==> wait_step(attempt, false) == WaitStep::Retry((attempt + 1) as u32),
{
}

/// What follows look number `attempt` for the client module; looks count from zero.
pub fn after_module_query(attempt: u32, found: bool) -> (r: WaitStep)
    ensures
        r == wait_step(attempt, found),
{
    if found {
        WaitStep::Initialize
    } else if attempt < MODULE_ATTEMPTS - 1 {
        WaitStep::Retry(attempt + 1)
    } else {
        WaitStep::TimeOut
    }
}

// ---------------------------------------------------------------------------------------------
// The path of the module.
// ---------------------------------------------------------------------------------------------

/// `std::str::from_utf8` of std: the text of bytes that are UTF-8, and an error for other bytes.
#[verifier::external_body]
fn text_of_utf8(bytes: &[u8]) -> (r: Option<&str>)
    ensures
        match r {
            Some(text) => valid_utf8(bytes@) && text@ == decode_utf8(bytes@),
            None => !valid_utf8(bytes@),
        },
{
    std::str::from_utf8(bytes).ok()
}

/// The bytes in front of the first zero byte, if there is one.
pub open spec fn before_zero(buffer: Seq<u8>) -> Option<Seq<u8>>
    decreases buffer.len(),
{
    if buffer.len() == 0 {
        None
    } else if buffer[0] == 0 {
        Some(Seq::empty())
    } else {
        match before_zero(buffer.drop_first()) {
            Some(rest) => Some(seq![buffer[0]] + rest),
            None => None,
        }
    }
}

/// The path in a buffer of which the system says that it filled `len` bytes: nothing where it
/// filled none or the buffer was too short, and else the text up to the first zero byte.
pub open spec fn path_in_buffer(buffer: Seq<u8>, len: nat) -> Option<Seq<char>> {
    if len == 0 || len >= buffer.len() {
        None
    } else {
        match before_zero(buffer) {
            Some(bytes) => if valid_utf8(bytes) {
                Some(decode_utf8(bytes))
            } else {
                None
            },
            None => None,
        }
    }
}

proof fn lemma_before_zero(buffer: Seq<u8>, end: int)
    requires
        0 <= end <= buffer.len(),
        forall|i: int| 0 <= i < end ==> buffer[i] != 0,
    ensures
        end < buffer.len() && buffer[end] == 0 ==> before_zero(buffer) == Some(buffer.take(end)),
        end == buffer.len() ==> before_zero(buffer) is None,
    decreases buffer.len(),
{
    if end > 0 {
        let rest = buffer.drop_first();
        assert forall|i: int| 0 <= i < end - 1 implies rest[i] != 0 by {
            assert(buffer[i + 1] != 0);
        }
        lemma_before_zero(rest, end - 1);
        if end < buffer.len() && buffer[end] == 0 {
            assert(seq![buffer[0]] + rest.take(end - 1) =~= buffer.take(end));
        }
    } else {
        assert(buffer.take(0) =~= Seq::empty());
    }
}

/// Law: the path is the text in front of the first zero byte, however long it is and whatever
/// stands behind it. Where the system says that it filled nothing or the whole buffer, where there
/// is no zero byte, or where the bytes are no text, there is no path.
pub proof fn path_stands_in_front_of_the_first_zero(bytes: Seq<u8>, behind: Seq<u8>, len: nat)
    requires
        forall|i: int| 0 <= i < bytes.len() ==> bytes[i] != 0,
    ensures
        path_in_buffer(bytes.push(0) + behind, len) == if 0 < len < bytes.len() + 1 + behind.len()
            && valid_utf8(bytes) {
            Some(decode_utf8(bytes))
        } else {
            None
        },
        path_in_buffer(bytes, len) is None,
{
    let buffer = bytes.push(0) + behind;
    lemma_before_zero(buffer, bytes.len() as int);
    assert(buffer.take(bytes.len() as int) =~= bytes);
    lemma_before_zero(bytes, bytes.len() as int);
}

/// The path that the system has put into a buffer.
pub fn path_from_buffer(buffer: &[u8], len: usize) -> (r: Option<String>)
    ensures
        match r {
            Some(path) => path_in_buffer(buffer@, len as nat) == Some(path@),
            None => path_in_buffer(buffer@, len as nat) is None,
        },
{
    if len == 0 || len >= buffer.len() {
        return None;
    }
    let mut end: usize = 0;
    while end < buffer.len() && buffer[end] != 0
        invariant
            end <= buffer@.len(),
            forall|i: int| 0 <= i < end ==> buffer@[i] != 0,
        decreases buffer@.len() - end,
    {
        end = end + 1;
    }
    proof {
        lemma_before_zero(buffer@, end as int);
    }
    if end == buffer.len() {
        return None;
    }
    let bytes: &[u8] = &buffer[0..end];
    assert(bytes@ =~= buffer@.take(end as int));
    match text_of_utf8(bytes) {
        Some(text) => Some(text.to_owned()),
        None => None,
    }
}

// ---------------------------------------------------------------------------------------------
// The configuration.
// ---------------------------------------------------------------------------------------------

/// A configuration, and what to log about where it comes from.
pub struct LoadedConfig {
    pub config: CameraConfig,
    pub log: Vec<String>,
}

/// The messages about a configuration: where its file should be, what the file holds where it
/// can be read, and how that reads.
pub open spec fn config_messages(path: Option<Seq<char>>, contents: Option<Seq<char>>) -> Seq<
    Seq<char>,
> {
    match (path, contents) {
        (None, _) => seq!["module path is unavailable; using default config"@],
        (Some(path), None) => seq!["config missing "@ + path + "; using defaults"@],
        (Some(path), Some(contents)) => match read_file(contents) {
            Ok(progress) => seq!["loaded config "@ + path] + progress.warnings,
            Err((line_number, error)) => seq![
                "invalid config "@ + path + "; using defaults: "@ + error_message(
                    line_number,
                    error,
                ),
            ],
        },
    }
}

/// Law: the messages name the whole path, carry every warning in turn, and a wrong file's error to
/// its end.
pub proof fn config_messages_tell_all(path: Seq<char>, contents: Seq<char>)
    ensures
        config_messages(None, Some(contents)) == config_messages(None, None),
        config_messages(None, None) == seq!["module path is unavailable; using default config"@],
        ({
            let missing = config_messages(Some(path), None);
            &&& missing.len() == 1
            &&& missing[0].take(15) == "config missing "@
            &&& missing[0].subrange(15, 15int + path.len()) == path
            &&& missing[0].skip(15int + path.len()) == "; using defaults"@
        }),
        ({
            let loaded = config_messages(Some(path), Some(contents));
            match read_file(contents) {
                Ok(progress) => {
                    &&& loaded[0].take(14) == "loaded config "@
                    &&& loaded[0].skip(14) == path
                    &&& loaded.skip(1) == progress.warnings
                },
                Err((line_number, error)) => {
                    &&& loaded.len() == 1
                    &&& loaded[0].take(15) == "invalid config "@
                    &&& loaded[0].subrange(15, 15int + path.len()) == path
                    &&& loaded[0].subrange(15int + path.len(), 33int + path.len())
                        == "; using defaults: "@
                    &&& loaded[0].skip(33int + path.len()) == "line "@ + decimal(line_number) + (
                    match error {
                        LineError::ExpectedKeyValue => ": expected key = value"@,
                        LineError::ExpectedTruthValue => ": expected true or false"@,
                    })
                },
            }
        }),
{
    reveal_strlit("config missing ");
    reveal_strlit("loaded config ");
    reveal_strlit("invalid config ");
    reveal_strlit("; using defaults: ");
    let missing = config_messages(Some(path), None)[0];
    assert(missing.take(15) =~= "config missing "@);
    assert(missing.subrange(15, 15int + path.len()) =~= path);
    assert(missing.skip(15int + path.len()) =~= "; using defaults"@);
    let loaded = config_messages(Some(path), Some(contents));
    match read_file(contents) {
        Ok(progress) => {
            assert(loaded[0].take(14) =~= "loaded config "@);
            assert(loaded[0].skip(14) =~= path);
            assert(loaded.skip(1) =~= progress.warnings);
        },
        Err((line_number, error)) => {
            assert(loaded[0].take(15) =~= "invalid config "@);
            assert(loaded[0].subrange(15, 15int + path.len()) =~= path);
            let behind = 15int + path.len();
            assert(loaded[0].subrange(behind, behind + 18) =~= "; using defaults: "@);
            assert(loaded[0].skip(33int + path.len()) =~= error_message(line_number, error));
        },
    }
}

/// The text of an optional string.
pub open spec fn text_view(text: Option<&str>) -> Option<Seq<char>> {
    match text {
        Some(text) => Some(text@),
        None => None,
    }
}

/// Law: an optional string that is there is viewed with all of its characters.
pub proof fn optional_texts_are_viewed_whole(text: Option<&str>)
    ensures
        match text {
            Some(text) => text_view(Some(text)) == Some(text@),
            None => text_view(None) is None,
        },
{
}

/// The configuration to use: that of the file, where there is one and nothing is wrong with it,
/// and the default one else.
pub fn load_config(path: Option<&str>, contents: Option<&str>) -> (r: LoadedConfig)
    ensures
        r.config.consistent(),
        match (path, contents) {
            (Some(_), Some(contents)) => match read_file(contents@) {
                Ok(progress) => forall|camera: Camera|
                    #[trigger] r.config.keeps(camera) == progress.config.keeps(camera),
                Err(_) => r.config == CameraConfig::default_config(),
            },
            _ => r.config == CameraConfig::default_config(),
        },
        views(r.log@) == config_messages(text_view(path), text_view(contents)),
{
    let mut log: Vec<String> = Vec::new();
    let path: &str = match path {
        Some(path) => path,
        None => {
            log.push("module path is unavailable; using default config".to_owned());
            assert(views(log@) =~= seq!["module path is unavailable; using default config"@]);
            return LoadedConfig { config: CameraConfig::default(), log };
        },
    };
    let contents: &str = match contents {
        Some(contents) => contents,
        None => {
            let mut message: String = "config missing ".to_owned();
            message.append(path);
            message.append("; using defaults");
            log.push(message);
            assert(views(log@) =~= seq!["config missing "@ + path@ + "; using defaults"@]);
            return LoadedConfig { config: CameraConfig::default(), log };
        },
    };
    match parse_camera_config(contents) {
        Ok((config, warnings)) => {
            let mut message: String = "loaded config ".to_owned();
            message.append(path);
            log.push(message);
            let mut warnings: Vec<String> = warnings;
            let ghost first = log@;
            let ghost more = warnings@;
            log.append(&mut warnings);
            assert(log@ =~= first + more);
            assert(views(log@) =~= seq!["loaded config "@ + path@] + views(more));
            LoadedConfig { config, log }
        },
        Err(error) => {
            let mut message: String = "invalid config ".to_owned();
            message.append(path);
            message.append("; using defaults: ");
            message.append(error.as_str());
            log.push(message);
            assert(views(log@) =~= seq![
                "invalid config "@ + path@ + "; using defaults: "@ + error@,
            ]);
            LoadedConfig { config: CameraConfig::default(), log }
        },
    }
}

/// The message that shows a configuration.
pub open spec fn config_message(config: CameraConfig) -> Seq<char> {
    "config fixed="@ + truth_word(config.fixed) + " first_person="@ + truth_word(
        config.first_person,
    ) + " chase="@ + truth_word(config.chase) + " cameraman="@ + truth_word(config.cameraman)
        + " disabled_mask="@ + prefixed_hex(config.disabled_mask as nat)
}

/// Law: the message about a configuration shows each setting, and the mask to its last digit.
pub proof fn config_message_shows_the_settings(config: CameraConfig)
    ensures
        is_part(
            config_message(config),
            "config fixed="@ + truth_word(config.fixed) + " first_person="@,
        ),
        is_part(
            config_message(config),
            " first_person="@ + truth_word(config.first_person) + " chase="@,
        ),
        is_part(config_message(config), " chase="@ + truth_word(config.chase) + " cameraman="@),
        is_part(
            config_message(config),
            " cameraman="@ + truth_word(config.cameraman) + " disabled_mask="@,
        ),
        exists|front: Seq<char>|
            config_message(config) == #[trigger] (front + "0x"@ + hexadecimal(
                config.disabled_mask as nat,
            )),
{
    let k1 = "config fixed="@;
    let k2 = " first_person="@;
    let k3 = " chase="@;
    let k4 = " cameraman="@;
    let k5 = " disabled_mask="@;
    let v1 = truth_word(config.fixed);
    let v2 = truth_word(config.first_person);
    let v3 = truth_word(config.chase);
    let v4 = truth_word(config.cameraman);
    let v5 = prefixed_hex(config.disabled_mask as nat);
    let s0 = Seq::<char>::empty();
    lemma_part_of_three(s0, k1, v1, k2);
    assert(s0 + k1 + v1 + k2 =~= k1 + v1 + k2);
    let s1 = k1 + v1;
    lemma_part_of_three(s1, k2, v2, k3);
    lemma_part_stays(s1 + k2, k1 + v1 + k2, v2);
    lemma_part_stays(s1 + k2 + v2, k1 + v1 + k2, k3);
    let s2 = s1 + k2 + v2;
    lemma_part_of_three(s2, k3, v3, k4);
    lemma_part_stays(s2 + k3, k1 + v1 + k2, v3);
    lemma_part_stays(s2 + k3 + v3, k1 + v1 + k2, k4);
    lemma_part_stays(s2 + k3, k2 + v2 + k3, v3);
    lemma_part_stays(s2 + k3 + v3, k2 + v2 + k3, k4);
    let s3 = s2 + k3 + v3;
    lemma_part_of_three(s3, k4, v4, k5);
    lemma_part_stays(s3 + k4, k1 + v1 + k2, v4);
    lemma_part_stays(s3 + k4 + v4, k1 + v1 + k2, k5);
    lemma_part_stays(s3 + k4, k2 + v2 + k3, v4);
    lemma_part_stays(s3 + k4 + v4, k2 + v2 + k3, k5);
    lemma_part_stays(s3 + k4, k3 + v3 + k4, v4);
    lemma_part_stays(s3 + k4 + v4, k3 + v3 + k4, k5);
    let front = s3 + k4 + v4 + k5;
    lemma_part_stays(front, k1 + v1 + k2, v5);
    lemma_part_stays(front, k2 + v2 + k3, v5);
    lemma_part_stays(front, k3 + v3 + k4, v5);
    lemma_part_stays(front, k4 + v4 + k5, v5);
    assert(config_message(config) =~= front + "0x"@ + hexadecimal(config.disabled_mask as nat));
}

/// Law: a configuration asks for a patch where some camera type does not keep the override.
pub proof fn patch_is_needed_for_some_camera(config: CameraConfig)
    requires
        config.consistent(),
    ensures
        config.disabled_mask != 0 <==> exists|camera: Camera| !#[trigger] config.keeps(camera),
{
    lemma2_to64();
    assert(config.keeps(Camera::Fixed) == config.fixed);
    assert(config.keeps(Camera::FirstPerson) == config.first_person);
    assert(config.keeps(Camera::Chase) == config.chase);
    assert(config.keeps(Camera::Cameraman) == config.cameraman);
}

/// Whether a configuration asks for a patch, and what to log about it.
pub struct Beginning {
    pub needs_patch: bool,
    pub log: Vec<String>,
}

/// Decides whether a configuration asks for a patch at all: it does not where every camera type
/// keeps the override.
pub fn begin_patch(config: &CameraConfig) -> (r: Beginning)
    ensures
        r.needs_patch == (config.disabled_mask != 0),
        views(r.log@) == if config.disabled_mask == 0 {
            seq![
                config_message(*config),
                "all camera families use the original override; no patch is needed"@,
            ]
        } else {
            seq![config_message(*config)]
        },
{
    let mut message: String = "config fixed=".to_owned();
    message.append(word_of(config.fixed));
    message.append(" first_person=");
    message.append(word_of(config.first_person));
    message.append(" chase=");
    message.append(word_of(config.chase));
    message.append(" cameraman=");
    message.append(word_of(config.cameraman));
    message.append(" disabled_mask=");
    push_prefixed_hex(&mut message, config.disabled_mask as usize);
    let mut log: Vec<String> = Vec::new();
    log.push(message);
    if config.disabled_mask == 0 {
        log.push("all camera families use the original override; no patch is needed".to_owned());
        assert(views(log@) =~= seq![
            config_message(*config),
            "all camera families use the original override; no patch is needed"@,
        ]);
        Beginning { needs_patch: false, log }
    } else {
        assert(views(log@) =~= seq![config_message(*config)]);
        Beginning { needs_patch: true, log }
    }
}

} // verus!
