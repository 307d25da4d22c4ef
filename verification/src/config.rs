//! The camera configuration: which camera types keep the autodirector's override.
use vstd::prelude::*;

use crate::machine::bit;
use crate::text::{
    all_space, characters, decimal, is_space, lemma_split_once, lemma_split_once_unique,
    lemma_trim_end_of, lemma_trim_start_of, lines, lines_add_up, lines_end_at_line_feeds,
    push_decimal, spells, split_at_first, split_once, string_of,
    surrounding_white_space_does_not_matter, the_last_line_needs_no_line_feed, trim, trim_end,
    trim_start, trimmed, trimming_takes_the_white_space_around, without_return,
};
use vstd::arithmetic::power2::{lemma2_to64, pow2};
use vstd::string::StringExecFns;

verus! {

/// The mode numbers that the observer state holds.
pub const MODE_FIXED: u32 = 1;

pub const MODE_FIRST_PERSON: u32 = 2;

pub const MODE_CHASE: u32 = 3;

pub const MODE_CAMERAMAN: u32 = 4;

/// The camera types that can be configured.
#[derive(Clone, Copy, Debug, PartialEq, Eq, Structural)]
pub enum Camera {
    Fixed,
    FirstPerson,
    Chase,
    Cameraman,
}

impl Camera {
    /// The mode number of a camera type.
    pub open spec fn mode(self) -> nat {
        match self {
            Camera::Fixed => 1,
            Camera::FirstPerson => 2,
            Camera::Chase => 3,
            Camera::Cameraman => 4,
        }
    }
}

/// For each camera type whether the autodirector's override stays, and the mask of the mode
/// numbers for which it does not.
#[derive(Clone, Debug, PartialEq, Eq, Structural)]
pub struct CameraConfig {
    pub fixed: bool,
    pub first_person: bool,
    pub chase: bool,
    pub cameraman: bool,
    pub disabled_mask: u32,
}

impl CameraConfig {
    /// Whether the override stays for a camera type.
    pub open spec fn keeps(self, camera: Camera) -> bool {
        match camera {
            Camera::Fixed => self.fixed,
            Camera::FirstPerson => self.first_person,
            Camera::Chase => self.chase,
            Camera::Cameraman => self.cameraman,
        }
    }

    /// The configuration with another setting for one camera type.
    pub open spec fn with(self, camera: Camera, keep: bool) -> CameraConfig {
        match camera {
            Camera::Fixed => CameraConfig { fixed: keep, ..self },
            Camera::FirstPerson => CameraConfig { first_person: keep, ..self },
            Camera::Chase => CameraConfig { chase: keep, ..self },
            Camera::Cameraman => CameraConfig { cameraman: keep, ..self },
        }
    }

    /// The mask that the four settings call for: one bit for each mode number.
    pub open spec fn mask(self) -> nat {
        (if self.fixed {
            0
        } else {
            pow2(1)
        }) + (if self.first_person {
            0
        } else {
            pow2(2)
        }) + (if self.chase {
            0
        } else {
            pow2(3)
        }) + (if self.cameraman {
            0
        } else {
            pow2(4)
        })
    }

    /// Whether the mask agrees with the settings.
    pub open spec fn consistent(self) -> bool {
        self.disabled_mask == self.mask()
    }

    /// The configuration that is used where none is given: only the first-person camera is
    /// taken from the override.
    pub open spec fn default_config() -> CameraConfig {
        CameraConfig {
            fixed: true,
            first_person: false,
            chase: true,
            cameraman: true,
            disabled_mask: 4,
        }
    }
}

impl Default for CameraConfig {
    fn default() -> (r: CameraConfig)
        ensures
            r == CameraConfig::default_config(),
            r.consistent(),
    {
        proof {
            lemma2_to64();
            assert(1u32 << 2u32 == 4) by (bit_vector);
        }
        CameraConfig {
            fixed: true,
            first_person: false,
            chase: true,
            cameraman: true,
            disabled_mask: 1u32 << MODE_FIRST_PERSON,
        }
    }
}

/// Law: in a configuration whose mask agrees with its settings, the bit of a camera type's mode
/// is set exactly where the override does not stay for it, and no other bit is set.
pub proof fn mask_bits_follow_the_settings(config: CameraConfig, camera: Camera, index: nat)
    requires
        config.consistent(),
    ensures
        bit(config.disabled_mask as nat, camera.mode()) == !config.keeps(camera),
        index == 0 || index > 4 ==> !bit(config.disabled_mask as nat, index),
        config.disabled_mask == 0 <==> config.fixed && config.first_person && config.chase
            && config.cameraman,
{
    lemma2_to64();
    let mask = config.disabled_mask as nat;
    assert(mask <= 30 && mask % 2 == 0);
    match camera {
        Camera::Fixed => assert(mask / pow2(1) == mask / 2),
        Camera::FirstPerson => assert(mask / pow2(2) == mask / 4),
        Camera::Chase => assert(mask / pow2(3) == mask / 8),
        Camera::Cameraman => assert(mask / pow2(4) == mask / 16),
    }
    if index == 0 {
        assert(mask / pow2(0) == mask);
    }
    if index > 4 {
        if index > 5 {
            vstd::arithmetic::power2::lemma_pow2_strictly_increases(5, index);
        }
        vstd::arithmetic::div_mod::lemma_basic_div(mask as int, pow2(index) as int);
    }
}

/// The camera type that a key of the configuration file names.
pub open spec fn camera_of_key(key: Seq<char>) -> Option<Camera> {
    if key == "fixed"@ || key == "point_camera"@ {
        Some(Camera::Fixed)
    } else if key == "first_person"@ || key == "first-person"@ || key == "ineye"@ || key
        == "in_eye"@ {
        Some(Camera::FirstPerson)
    } else if key == "chase"@ {
        Some(Camera::Chase)
    } else if key == "cameraman"@ || key == "freecam"@ || key == "free_camera"@ {
        Some(Camera::Cameraman)
    } else {
        None
    }
}

/// The truth value that a text names.
pub open spec fn truth_value(value: Seq<char>) -> Option<bool> {
    if value == "true"@ {
        Some(true)
    } else if value == "false"@ {
        Some(false)
    } else {
        None
    }
}

/// What is wrong with a line.
#[derive(Clone, Copy, Debug, PartialEq, Eq, Structural)]
pub enum LineError {
    ExpectedKeyValue,
    ExpectedTruthValue,
}

impl LineError {
    /// The words for what is wrong.
    pub open spec fn words(self) -> Seq<char> {
        match self {
            LineError::ExpectedKeyValue => ": expected key = value"@,
            LineError::ExpectedTruthValue => ": expected true or false"@,
        }
    }
}

/// How far a configuration file has been read.
pub struct Progress {
    /// The settings so far; the mask is not looked at.
    pub config: CameraConfig,
    /// The warnings so far.
    pub warnings: Seq<Seq<char>>,
    /// Whether the section is the one of the cameras.
    pub in_cameras: bool,
}

/// The warning about a key that names no camera type.
pub open spec fn unknown_key_warning(key: Seq<char>) -> Seq<char> {
    "ignoring unknown cameras key '"@ + key + "'"@
}

/// A line without its comment and the white space around it.
pub open spec fn meaningful(raw_line: Seq<char>) -> Seq<char> {
    trimmed(
        match split_once(raw_line, '#') {
            Some((line, _)) => line,
            None => raw_line,
        },
    )
}

/// Whether a line opens a section.
pub open spec fn is_section(line: Seq<char>) -> bool {
    line.len() > 0 && line[0] == '[' && line.last() == ']'
}

/// What one line does.
pub open spec fn read_line(progress: Progress, raw_line: Seq<char>) -> Result<
    Progress,
    LineError,
> {
    let line = meaningful(raw_line);
    if line.len() == 0 {
        Ok(progress)
    } else if is_section(line) {
        Ok(
            Progress {
                in_cameras: line.subrange(1, line.len() - 1) == "cameras"@,
                ..progress
            },
        )
    } else if !progress.in_cameras {
        Ok(progress)
    } else {
        match split_once(line, '=') {
            None => Err(LineError::ExpectedKeyValue),
            Some((key, value)) => match truth_value(trimmed(value)) {
                None => Err(LineError::ExpectedTruthValue),
                Some(keep) => match camera_of_key(trimmed(key)) {
                    Some(camera) => Ok(
                        Progress { config: progress.config.with(camera, keep), ..progress },
                    ),
                    None => Ok(
                        Progress {
                            warnings: progress.warnings.push(unknown_key_warning(trimmed(key))),
                            ..progress
                        },
                    ),
                },
            },
        }
    }
}

/// What the first `count` lines do, one after the other, or the number of the first line that is
/// wrong and what is wrong with it. Lines count from one.
pub open spec fn read_lines(all: Seq<Seq<char>>, count: nat) -> Result<
    Progress,
    (nat, LineError),
>
    decreases count,
{
    if count == 0 {
        Ok(
            Progress {
                config: CameraConfig::default_config(),
                warnings: Seq::empty(),
                in_cameras: false,
            },
        )
    } else {
        match read_lines(all, (count - 1) as nat) {
            Err(error) => Err(error),
            Ok(progress) => match read_line(progress, all[count - 1]) {
                Ok(next) => Ok(next),
                Err(error) => Err((count, error)),
            },
        }
    }
}

/// What a whole configuration file does.
pub open spec fn read_file(contents: Seq<char>) -> Result<Progress, (nat, LineError)> {
    read_lines(lines(contents), lines(contents).len())
}

/// The message about a line that is wrong.
pub open spec fn error_message(line_number: nat, error: LineError) -> Seq<char> {
    "line "@ + decimal(line_number) + error.words()
}

/// Law: what stands behind a `#` does not matter.
pub proof fn comments_are_ignored(progress: Progress, line: Seq<char>, comment: Seq<char>)
    requires
        !line.contains('#'),
    ensures
        read_line(progress, line.push('#') + comment) == read_line(progress, line),
{
    lemma_split_once(line, '#');
    lemma_split_once_unique(line.push('#') + comment, '#', line, comment);
}

/// Law: a line that assigns a truth value to the key of a camera type sets that camera type, and
/// leaves the other ones, the warnings and the section alone.
pub proof fn assignment_sets_one_camera(
    progress: Progress,
    raw_line: Seq<char>,
    key: Seq<char>,
    value: Seq<char>,
    camera: Camera,
    keep: bool,
)
    requires
        progress.in_cameras,
        !is_section(meaningful(raw_line)),
        split_once(meaningful(raw_line), '=') == Some((key, value)),
        camera_of_key(trimmed(key)) == Some(camera),
        truth_value(trimmed(value)) == Some(keep),
    ensures
        read_line(progress, raw_line) matches Ok(next) && {
            &&& next.config.keeps(camera) == keep
            &&& forall|other: Camera|
                other != camera ==> #[trigger] next.config.keeps(other) == progress.config.keeps(
                    other,
                )
            &&& next.warnings == progress.warnings
            &&& next.in_cameras
        },
{
    lemma_split_once(meaningful(raw_line), '=');
}

/// Law: ten keys name a camera type, each one, and no other key does.
pub proof fn keys_name_their_cameras(key: Seq<char>)
    ensures
        camera_of_key(key) == Some(Camera::Fixed) <==> key == "fixed"@ || key == "point_camera"@,
        camera_of_key(key) == Some(Camera::FirstPerson) <==> key == "first_person"@ || key
            == "first-person"@ || key == "ineye"@ || key == "in_eye"@,
        camera_of_key(key) == Some(Camera::Chase) <==> key == "chase"@,
        camera_of_key(key) == Some(Camera::Cameraman) <==> key == "cameraman"@ || key
            == "freecam"@ || key == "free_camera"@,
        truth_value(key) == Some(true) <==> key == "true"@,
        truth_value(key) == Some(false) <==> key == "false"@,
{
    reveal_strlit("fixed");
    reveal_strlit("point_camera");
    reveal_strlit("first_person");
    reveal_strlit("first-person");
    reveal_strlit("ineye");
    reveal_strlit("in_eye");
    reveal_strlit("chase");
    reveal_strlit("cameraman");
    reveal_strlit("freecam");
    reveal_strlit("free_camera");
    reveal_strlit("true");
    reveal_strlit("false");
    assert("fixed"@[1] == 'i' && "point_camera"@[1] == 'o' && "first_person"@[1] == 'i');
    assert("first-person"@[1] == 'i' && "ineye"@[1] == 'n' && "in_eye"@[1] == 'n');
    assert("chase"@[1] == 'h' && "cameraman"@[1] == 'a' && "freecam"@[1] == 'r');
    assert("free_camera"@[1] == 'r');
    assert("fixed"@.len() != "first_person"@.len() && "fixed"@.len() != "first-person"@.len());
    assert("true"@.len() != "false"@.len());
}

/// Law: each camera type has the setting of its name.
pub proof fn settings_have_the_names_of_their_cameras(config: CameraConfig)
    ensures
        config.keeps(Camera::Fixed) == config.fixed,
        config.keeps(Camera::FirstPerson) == config.first_person,
        config.keeps(Camera::Chase) == config.chase,
        config.keeps(Camera::Cameraman) == config.cameraman,
{
}

/// Law: inside the section of the cameras a line is read by what stands left and right of its
/// first equals sign, and white space around either does not matter, however much it is.
pub proof fn white_space_around_key_and_value_does_not_matter(
    progress: Progress,
    before_key: Seq<char>,
    key: Seq<char>,
    behind_key: Seq<char>,
    before_value: Seq<char>,
    value: Seq<char>,
    behind_value: Seq<char>,
)
    requires
        progress.in_cameras,
        all_space(before_key) && all_space(behind_key),
        all_space(before_value) && all_space(behind_value),
        key.len() > 0 ==> !is_space(key[0]) && !is_space(key.last()),
        value.len() > 0 ==> !is_space(value[0]) && !is_space(value.last()),
        !key.contains('=') && !key.contains('#') && !value.contains('#'),
        !(key.len() > 0 && key[0] == '[' && value.len() > 0 && value.last() == ']'),
    ensures
        ({
            let line = before_key + key + behind_key + seq!['='] + before_value + value
                + behind_value;
            read_line(progress, line) == match (truth_value(value), camera_of_key(key)) {
                (None, _) => Err(LineError::ExpectedTruthValue),
                (Some(keep), Some(camera)) => Ok(
                    Progress { config: progress.config.with(camera, keep), ..progress },
                ),
                (Some(_), None) => Ok(
                    Progress {
                        warnings: progress.warnings.push(
                            "ignoring unknown cameras key '"@ + key + "'"@,
                        ),
                        ..progress
                    },
                ),
            }
        }),
{
    let left = before_key + key + behind_key;
    let right = before_value + value + behind_value;
    let line = before_key + key + behind_key + seq!['='] + before_value + value + behind_value;
    assert(line =~= left.push('=') + right);
    lemma_no_such_space(before_key, key, behind_key, '=');
    lemma_no_such_space(before_key, key, behind_key, '#');
    lemma_no_such_space(before_value, value, behind_value, '#');
    assert(!line.contains('#')) by {
        if line.contains('#') {
            let i = choose|i: int| 0 <= i < line.len() && line[i] == '#';
            if i < left.len() {
                assert(left[i] == '#');
            } else {
                assert(right[i - left.len() - 1] == '#');
            }
        }
    }
    lemma_split_once(line, '#');
    // Both ends are trimmed, and the equals sign stays.
    let cut_left = trim_start(left);
    let cut_right = trim_end(right);
    lemma_trim_around(left, '=', right);
    surrounding_white_space_does_not_matter(before_key, key, behind_key);
    surrounding_white_space_does_not_matter(before_value, value, behind_value);
    lemma_trim_again(left);
    lemma_trim_again(right);
    let cut = cut_left.push('=') + cut_right;
    assert(meaningful(line) == cut);
    assert(!cut_left.contains('=')) by {
        lemma_trim_start_contains(left, '=');
    }
    lemma_split_once_unique(cut, '=', cut_left, cut_right);
    if is_section(cut) {
        if cut_left.len() > 0 {
            lemma_first_character(left);
        }
        if cut_right.len() > 0 {
            lemma_last_character(right);
        }
    }
}

proof fn lemma_no_such_space(front: Seq<char>, t: Seq<char>, back: Seq<char>, c: char)
    requires
        all_space(front),
        all_space(back),
        !t.contains(c),
        !is_space(c),
    ensures
        !(front + t + back).contains(c),
{
    let s = front + t + back;
    if s.contains(c) {
        let i = choose|i: int| 0 <= i < s.len() && s[i] == c;
        if i < front.len() {
            assert(is_space(front[i]));
        } else if i < front.len() + t.len() {
            assert(t[i - front.len()] == c);
        } else {
            assert(is_space(back[i - front.len() - t.len()]));
        }
    }
}

/// Around a character that is no white space, trimming works on either side alone.
proof fn lemma_trim_around(left: Seq<char>, c: char, right: Seq<char>)
    requires
        !is_space(c),
    ensures
        trimmed(left.push(c) + right) == trim_start(left).push(c) + trim_end(right),
{
    lemma_trim_start_around(left, seq![c] + right);
    assert(left.push(c) + right =~= left + (seq![c] + right));
    let cut = trim_start(left);
    assert(cut + (seq![c] + right) =~= cut.push(c) + right);
    lemma_trim_end_around(cut.push(c), right);
}

proof fn lemma_trim_start_around(left: Seq<char>, rest: Seq<char>)
    requires
        rest.len() > 0,
        !is_space(rest[0]),
    ensures
        trim_start(left + rest) == trim_start(left) + rest,
    decreases left.len(),
{
    if left.len() == 0 {
        assert(left + rest =~= rest);
        assert(trim_start(left) + rest =~= rest);
    } else {
        assert((left + rest)[0] == left[0]);
        assert((left + rest).drop_first() =~= left.drop_first() + rest);
        lemma_trim_start_around(left.drop_first(), rest);
    }
}

proof fn lemma_trim_end_around(rest: Seq<char>, right: Seq<char>)
    requires
        rest.len() > 0,
        !is_space(rest.last()),
    ensures
        trim_end(rest + right) == rest + trim_end(right),
    decreases right.len(),
{
    if right.len() == 0 {
        assert(rest + right =~= rest);
        assert(rest + trim_end(right) =~= rest);
    } else {
        assert((rest + right).last() == right.last());
        assert((rest + right).drop_last() =~= rest + right.drop_last());
        lemma_trim_end_around(rest, right.drop_last());
    }
}

/// What was trimmed on one side is trimmed like the whole.
proof fn lemma_trim_again(s: Seq<char>)
    ensures
        trimmed(trim_start(s)) == trimmed(s),
        trimmed(trim_end(s)) == trimmed(s),
{
    trimming_takes_the_white_space_around(s);
    let (front, back) = choose|front: Seq<char>, back: Seq<char>|
        all_space(front) && all_space(back) && s == #[trigger] (front + trimmed(s) + back);
    let t = trimmed(s);
    assert(s =~= front + (t + back));
    lemma_trim_start_of(front, t + back);
    let empty = Seq::<char>::empty();
    if t.len() > 0 {
        assert((t + back)[0] == t[0]);
        assert(trim_start(s) =~= empty + t + back);
        surrounding_white_space_does_not_matter(empty, t, back);
        lemma_trim_end_of(front + t, back);
        assert((front + t).last() == t.last());
        assert(trim_end(s) =~= front + t + empty);
        surrounding_white_space_does_not_matter(front, t, empty);
    } else {
        assert(s =~= front + back);
        assert(all_space(s)) by {
            assert forall|i: int| 0 <= i < s.len() implies is_space(#[trigger] s[i]) by {
                if i < front.len() {
                    assert(s[i] == front[i]);
                } else {
                    assert(s[i] == back[i - front.len()]);
                }
            }
        }
        lemma_trim_start_of(s, empty);
        lemma_trim_end_of(empty, s);
        assert(s + empty =~= s);
        assert(empty + s =~= s);
    }
}

proof fn lemma_trim_start_contains(s: Seq<char>, c: char)
    requires
        !s.contains(c),
    ensures
        !trim_start(s).contains(c),
    decreases s.len(),
{
    if s.len() > 0 && is_space(s[0]) {
        assert(!s.drop_first().contains(c)) by {
            if s.drop_first().contains(c) {
                let i = choose|i: int| 0 <= i < s.len() - 1 && s.drop_first()[i] == c;
                assert(s[i + 1] == c);
            }
        }
        lemma_trim_start_contains(s.drop_first(), c);
    }
}

/// What is left in front starts like the trimmed text.
proof fn lemma_first_character(s: Seq<char>)
    requires
        trim_start(s).len() > 0,
    ensures
        trimmed(s).len() > 0,
        trimmed(s)[0] == trim_start(s)[0],
{
    let t = trim_start(s);
    lemma_trim_start_stops(s);
    assert(t =~= seq![t[0]] + t.drop_first());
    lemma_trim_end_around(seq![t[0]], t.drop_first());
}

proof fn lemma_trim_start_stops(s: Seq<char>)
    ensures
        trim_start(s).len() > 0 ==> !is_space(trim_start(s)[0]),
    decreases s.len(),
{
    if s.len() > 0 && is_space(s[0]) {
        lemma_trim_start_stops(s.drop_first());
    }
}

proof fn lemma_trim_end_stops(s: Seq<char>)
    ensures
        trim_end(s).len() > 0 ==> !is_space(trim_end(s).last()),
    decreases s.len(),
{
    if s.len() > 0 && is_space(s.last()) {
        lemma_trim_end_stops(s.drop_last());
    }
}

/// What is left behind ends like the trimmed text.
proof fn lemma_last_character(s: Seq<char>)
    requires
        trim_end(s).len() > 0,
    ensures
        trimmed(s).len() > 0,
        trimmed(s).last() == trim_end(s).last(),
{
    let t = trim_end(s);
    lemma_trim_end_stops(s);
    lemma_trim_again(s);
    assert(t =~= t.drop_last() + seq![t.last()]);
    lemma_trim_start_around(t.drop_last(), seq![t.last()]);
    let cut = trim_start(t);
    assert(cut.last() == t.last());
    assert(trim_end(cut) == cut);
}

/// Law: a name in square brackets opens a section, which is that of the cameras where the name
/// is `cameras`, and white space around the brackets does not matter.
pub proof fn brackets_open_a_section(
    progress: Progress,
    front: Seq<char>,
    name: Seq<char>,
    back: Seq<char>,
)
    requires
        all_space(front) && all_space(back),
        !name.contains('#'),
    ensures
        read_line(progress, front + (seq!['['] + name + seq![']']) + back) == Ok::<
            Progress,
            LineError,
        >(Progress { in_cameras: name == "cameras"@, ..progress }),
{
    let t = seq!['['] + name + seq![']'];
    surrounding_white_space_does_not_matter(front, t, back);
    assert(!t.contains('#')) by {
        if t.contains('#') {
            let i = choose|i: int| 0 <= i < t.len() && t[i] == '#';
            assert(name[i - 1] == '#');
        }
    }
    lemma_no_such_space(front, t, back, '#');
    lemma_split_once(front + t + back, '#');
    assert(t.subrange(1, t.len() - 1) =~= name);
}

/// Law: a line of white space does nothing. Outside the section of the cameras no line but one in
/// square brackets does anything, and inside it one without an equals sign is wrong.
pub proof fn other_lines_are_skipped_or_wrong(
    progress: Progress,
    front: Seq<char>,
    t: Seq<char>,
    back: Seq<char>,
)
    requires
        all_space(front) && all_space(back),
        t.len() > 0 ==> !is_space(t[0]) && !is_space(t.last()),
        !t.contains('#'),
    ensures
        t.len() == 0 ==> read_line(progress, front + t + back) == Ok::<Progress, LineError>(
            progress,
        ),
        t.len() > 0 && !(t[0] == '[' && t.last() == ']') && !progress.in_cameras ==> read_line(
            progress,
            front + t + back,
        ) == Ok::<Progress, LineError>(progress),
        t.len() > 0 && !(t[0] == '[' && t.last() == ']') && progress.in_cameras && !t.contains('=')
            ==> read_line(progress, front + t + back) == Err::<Progress, LineError>(
            LineError::ExpectedKeyValue,
        ),
{
    surrounding_white_space_does_not_matter(front, t, back);
    lemma_no_such_space(front, t, back, '#');
    lemma_split_once(front + t + back, '#');
    lemma_split_once(t, '=');
}

/// Law: lines are read in turn, from the defaults on, each from where the one before has left off,
/// up to the first that is wrong, however many they are.
pub proof fn lines_are_read_in_turn(all: Seq<Seq<char>>, count: nat)
    ensures
        read_lines(all, 0) == Ok::<Progress, (nat, LineError)>(
            Progress {
                config: CameraConfig {
                    fixed: true,
                    first_person: false,
                    chase: true,
                    cameraman: true,
                    disabled_mask: 4,
                },
                warnings: Seq::empty(),
                in_cameras: false,
            },
        ),
        read_lines(all, count) matches Ok(progress) ==> match read_line(
            progress,
            all[count as int],
        ) {
            Ok(next) => read_lines(all, count + 1) == Ok::<Progress, (nat, LineError)>(next),
            Err(error) => read_lines(all, count + 1) == Err::<Progress, (nat, LineError)>(
                (count + 1, error),
            ),
        },
        read_lines(all, count) is Err ==> read_lines(all, count + 1) == read_lines(all, count),
{
}

/// What reading one more line makes of what the lines in front of it have made, of which there are
/// `count`.
pub open spec fn with_line(
    before: Result<Progress, (nat, LineError)>,
    count: nat,
    line: Seq<char>,
) -> Result<Progress, (nat, LineError)> {
    match before {
        Ok(progress) => match read_line(progress, line) {
            Ok(next) => Ok(next),
            Err(error) => Err((count + 1, error)),
        },
        Err(error) => Err(error),
    }
}

/// Law: a file with one more line behind it is read as the file, and then the line, whichever way
/// the line ends. An empty file leaves the defaults.
pub proof fn one_more_line_is_read_last(front: Seq<char>, line: Seq<char>)
    requires
        front.len() == 0 || front.last() == '\n',
        !line.contains('\n'),
    ensures
        read_file(front + (line + seq!['\r', '\n'])) == with_line(
            read_file(front),
            lines(front).len(),
            line,
        ),
        line.len() == 0 || line.last() != '\r' ==> read_file(front + line.push('\n'))
            == with_line(read_file(front), lines(front).len(), line),
        line.len() > 0 ==> read_file(front + line) == with_line(
            read_file(front),
            lines(front).len(),
            line,
        ),
        read_file(Seq::empty()) == read_lines(Seq::empty(), 0),
{
    let all = lines(front).push(line);
    let nothing = Seq::<char>::empty();
    lemma_read_prefix(lines(front), all, lines(front).len());
    lines_end_at_line_feeds(line, nothing);
    the_last_line_needs_no_line_feed(nothing);
    assert(nothing =~= Seq::empty());
    assert(read_lines(all, all.len()) == with_line(read_file(front), lines(front).len(), line));

    let with_both = line + seq!['\r', '\n'];
    lines_add_up(front, with_both);
    assert(with_both + nothing =~= with_both);
    assert(lines(front + with_both) =~= all);

    let with_feed = line.push('\n');
    lines_add_up(front, with_feed);
    assert(with_feed + nothing =~= with_feed);
    if line.len() == 0 || line.last() != '\r' {
        assert(lines(front + with_feed) =~= all);
    }

    lines_add_up(front, line);
    the_last_line_needs_no_line_feed(line);
    if line.len() > 0 {
        assert(lines(front + line) =~= all);
    }
    assert(lines(Seq::<char>::empty()) =~= Seq::empty());
}

/// Lines behind the ones that are read do not matter.
proof fn lemma_read_prefix(short: Seq<Seq<char>>, long: Seq<Seq<char>>, count: nat)
    requires
        count <= short.len() <= long.len(),
        forall|i: int| 0 <= i < short.len() ==> short[i] == #[trigger] long[i],
    ensures
        read_lines(short, count) == read_lines(long, count),
    decreases count,
{
    if count > 0 {
        lemma_read_prefix(short, long, (count - 1) as nat);
        assert(short[count - 1] == long[count - 1]);
    }
}

/// Law: a setting is that of the last line that assigns it inside the section of the cameras.
/// Lines behind it that do not assign it leave it alone.
pub proof fn later_lines_leave_a_setting_alone(
    all: Seq<Seq<char>>,
    last: nat,
    count: nat,
    camera: Camera,
)
    requires
        last <= count <= all.len(),
        read_lines(all, count) is Ok,
        forall|i: int, keep: bool| last <= i < count ==> !#[trigger] assigns(all[i], camera, keep),
    ensures
        read_lines(all, last) matches Ok(before) && read_lines(all, count)->Ok_0.config.keeps(
            camera,
        ) == before.config.keeps(camera),
    decreases count - last,
{
    if last < count {
        let before = read_lines(all, (count - 1) as nat)->Ok_0;
        let after = read_lines(all, count)->Ok_0;
        later_lines_leave_a_setting_alone(all, last, (count - 1) as nat, camera);
        assert(!assigns(all[count - 1], camera, after.config.keeps(camera)));
    }
}

/// Law: a line of another section, and a file without a section `[cameras]`, change nothing.
pub proof fn other_sections_are_ignored(contents: Seq<char>)
    requires
        forall|i: int|
            0 <= i < lines(contents).len() ==> {
                let line = meaningful(#[trigger] lines(contents)[i]);
                is_section(line) ==> line.subrange(1, line.len() - 1) != "cameras"@
            },
    ensures
        read_file(contents) == Ok::<Progress, (nat, LineError)>(
            Progress {
                config: CameraConfig::default_config(),
                warnings: Seq::empty(),
                in_cameras: false,
            },
        ),
{
    lemma_other_sections(lines(contents), lines(contents).len());
}

proof fn lemma_other_sections(all: Seq<Seq<char>>, count: nat)
    requires
        count <= all.len(),
        forall|i: int|
            0 <= i < all.len() ==> {
                let line = meaningful(#[trigger] all[i]);
                is_section(line) ==> line.subrange(1, line.len() - 1) != "cameras"@
            },
    ensures
        read_lines(all, count) == Ok::<Progress, (nat, LineError)>(
            Progress {
                config: CameraConfig::default_config(),
                warnings: Seq::empty(),
                in_cameras: false,
            },
        ),
    decreases count,
{
    if count > 0 {
        lemma_other_sections(all, (count - 1) as nat);
    }
}

/// Law: the number in an error is that of the first wrong line: all lines in front of it were
/// read, and it is the one that could not be.
pub proof fn error_names_the_first_wrong_line(
    contents: Seq<char>,
    line_number: nat,
    error: LineError,
)
    requires
        read_file(contents) == Err::<Progress, (nat, LineError)>((line_number, error)),
    ensures
        1 <= line_number <= lines(contents).len(),
        read_lines(lines(contents), (line_number - 1) as nat) matches Ok(progress) && read_line(
            progress,
            lines(contents)[line_number - 1],
        ) == Err::<Progress, LineError>(error),
{
    lemma_first_wrong_line(lines(contents), lines(contents).len());
}

proof fn lemma_first_wrong_line(all: Seq<Seq<char>>, count: nat)
    ensures
        read_lines(all, count) matches Err((line_number, error)) ==> {
            &&& 1 <= line_number <= count
            &&& read_lines(all, (line_number - 1) as nat) matches Ok(progress)
            &&& read_line(progress, all[line_number - 1]) == Err::<Progress, LineError>(error)
        },
    decreases count,
{
    if count > 0 {
        lemma_first_wrong_line(all, (count - 1) as nat);
    }
}

/// Law: only assignments change a setting: one that differs from the default was assigned by
/// some line.
pub proof fn changed_settings_were_assigned(
    all: Seq<Seq<char>>,
    count: nat,
    camera: Camera,
    keep: bool,
)
    requires
        count <= all.len(),
        keep != CameraConfig::default_config().keeps(camera),
        read_lines(all, count) matches Ok(progress) && progress.config.keeps(camera) == keep,
    ensures
        exists|i: int| 0 <= i < count && #[trigger] assigns(all[i], camera, keep),
    decreases count,
{
    if count > 0 {
        let before = read_lines(all, (count - 1) as nat)->Ok_0;
        if before.config.keeps(camera) == keep {
            changed_settings_were_assigned(all, (count - 1) as nat, camera, keep);
        } else {
            assert(assigns(all[count - 1], camera, keep));
        }
    }
}

/// Whether a line assigns a truth value to a camera type.
pub open spec fn assigns(raw_line: Seq<char>, camera: Camera, keep: bool) -> bool {
    split_once(meaningful(raw_line), '=') matches Some((key, value)) && camera_of_key(trimmed(key))
        == Some(camera) && truth_value(trimmed(value)) == Some(keep)
}

/// The characters of each string.
pub open spec fn views(strings: Seq<String>) -> Seq<Seq<char>> {
    strings.map_values(|s: String| s@)
}

/// Law: every string is there, in its place, with all of its characters.
pub proof fn every_string_is_viewed(strings: Seq<String>, i: int)
    ensures
        views(strings).len() == strings.len(),
        0 <= i < strings.len() ==> views(strings)[i] == strings[i]@,
{
}

fn mask_of(config: &CameraConfig) -> (r: u32)
    ensures
        r == config.mask(),
{
    proof {
        lemma2_to64();
        assert(0u32 | (1u32 << 1u32) == 2) by (bit_vector);
        assert(forall|x: u32| x < 4 ==> #[trigger] (x | (1u32 << 2u32)) == x + 4) by (bit_vector);
        assert(forall|x: u32| x < 8 ==> #[trigger] (x | (1u32 << 3u32)) == x + 8) by (bit_vector);
        assert(forall|x: u32| x < 16 ==> #[trigger] (x | (1u32 << 4u32)) == x + 16) by (bit_vector);
    }
    let mut disabled_mask: u32 = 0;
    if !config.fixed {
        disabled_mask = disabled_mask | (1u32 << MODE_FIXED);
    }
    if !config.first_person {
        disabled_mask = disabled_mask | (1u32 << MODE_FIRST_PERSON);
    }
    if !config.chase {
        disabled_mask = disabled_mask | (1u32 << MODE_CHASE);
    }
    if !config.cameraman {
        disabled_mask = disabled_mask | (1u32 << MODE_CAMERAMAN);
    }
    disabled_mask
}

/// The reading position inside a configuration file.
struct Reader {
    config: CameraConfig,
    warnings: Vec<String>,
    in_cameras: bool,
}

impl Reader {
    spec fn progress(self) -> Progress {
        Progress {
            config: self.config,
            warnings: views(self.warnings@),
            in_cameras: self.in_cameras,
        }
    }

    fn warn_unknown_key(&mut self, key: &[char])
        ensures
            final(self).progress() == (Progress {
                warnings: old(self).progress().warnings.push(unknown_key_warning(key@)),
                ..old(self).progress()
            }),
    {
        let mut warning: String = String::new();
        warning.append("ignoring unknown cameras key '");
        warning.append(string_of(key).as_str());
        warning.append("'");
        assert(warning@ =~= unknown_key_warning(key@));
        let ghost before = self.warnings@;
        self.warnings.push(warning);
        assert(views(self.warnings@) =~= views(before).push(unknown_key_warning(key@)));
    }

    fn assign(&mut self, key: &[char], keep: bool)
        ensures
            final(self).progress() == match camera_of_key(key@) {
                Some(camera) => Progress {
                    config: old(self).config.with(camera, keep),
                    ..old(self).progress()
                },
                None => Progress {
                    warnings: old(self).progress().warnings.push(unknown_key_warning(key@)),
                    ..old(self).progress()
                },
            },
    {
        if spells(key, "fixed") || spells(key, "point_camera") {
            self.config.fixed = keep;
        } else if spells(key, "first_person") || spells(key, "first-person") || spells(key, "ineye")
            || spells(key, "in_eye") {
            self.config.first_person = keep;
        } else if spells(key, "chase") {
            self.config.chase = keep;
        } else if spells(key, "cameraman") || spells(key, "freecam") || spells(
            key,
            "free_camera",
        ) {
            self.config.cameraman = keep;
        } else {
            self.warn_unknown_key(key);
        }
    }

    fn read_line(&mut self, raw_line: &[char]) -> (r: Result<(), LineError>)
        ensures
            match r {
                Ok(()) => read_line(old(self).progress(), raw_line@) == Ok::<Progress, LineError>(
                    final(self).progress(),
                ),
                Err(error) => read_line(old(self).progress(), raw_line@) == Err::<
                    Progress,
                    LineError,
                >(error),
            },
    {
        let before_comment: &[char] = match split_at_first(raw_line, '#') {
            Some((line, _)) => line,
            None => raw_line,
        };
        let line: &[char] = trim(before_comment);
        if line.len() == 0 {
            return Ok(());
        }
        if line[0] == '[' && line[line.len() - 1] == ']' {
            self.in_cameras = spells(&line[1..line.len() - 1], "cameras");
            return Ok(());
        }
        if !self.in_cameras {
            return Ok(());
        }
        let (key, value) = match split_at_first(line, '=') {
            Some(parts) => parts,
            None => return Err(LineError::ExpectedKeyValue),
        };
        let value: &[char] = trim(value);
        let keep: bool = if spells(value, "true") {
            true
        } else if spells(value, "false") {
            false
        } else {
            return Err(LineError::ExpectedTruthValue);
        };
        self.assign(trim(key), keep);
        Ok(())
    }
}

fn message_of(line_number: usize, error: LineError) -> (r: String)
    ensures
        r@ == error_message(line_number as nat, error),
{
    let mut message: String = String::new();
    message.append("line ");
    push_decimal(&mut message, line_number as u128);
    match error {
        LineError::ExpectedKeyValue => message.append(": expected key = value"),
        LineError::ExpectedTruthValue => message.append(": expected true or false"),
    }
    assert(message@ =~= error_message(line_number as nat, error));
    message
}

/// A line that is wrong decides the whole.
proof fn lemma_error_stays(all: Seq<Seq<char>>, short: nat, long: nat)
    requires
        short <= long,
        read_lines(all, short) is Err,
    ensures
        read_lines(all, long) == read_lines(all, short),
    decreases long,
{
    if short < long {
        lemma_error_stays(all, short, (long - 1) as nat);
    }
}

/// The first line of a text, and the text behind it.
fn first_line<'a>(text: &'a [char]) -> (r: (&'a [char], &'a [char]))
    requires
        text@.len() > 0,
    ensures
        lines(text@) == seq![r.0@] + lines(r.1@),
        r.1@.len() < text@.len(),
{
    match split_at_first(text, '\n') {
        Some((terminated, behind)) => {
            proof {
                lemma_split_once(text@, '\n');
            }
            let line: &'a [char] = if terminated.len() > 0 && terminated[terminated.len() - 1]
                == '\r' {
                &terminated[0..terminated.len() - 1]
            } else {
                terminated
            };
            assert(line@ =~= without_return(terminated@));
            (line, behind)
        },
        None => {
            let behind: &'a [char] = &text[0..0];
            assert(lines(behind@) =~= Seq::empty());
            assert(seq![text@] + lines(behind@) =~= seq![text@]);
            (text, behind)
        },
    }
}

/// Reads a configuration file: the settings, and a warning for each key that names no camera
/// type; or a message about the first line that is wrong.
#[verifier::spinoff_prover]
pub fn parse_camera_config(contents: &str) -> (r: Result<(CameraConfig, Vec<String>), String>)
    ensures
        match read_file(contents@) {
            Ok(progress) => {
                &&& r matches Ok((config, warnings))
                &&& config.consistent()
                &&& forall|camera: Camera|
                    #[trigger] config.keeps(camera) == progress.config.keeps(camera)
                &&& views(warnings@) == progress.warnings
            },
            Err((line_number, error)) => {
                &&& r matches Err(message)
                &&& message@ == error_message(line_number, error)
            },
        },
{
    let text: Vec<char> = characters(contents);
    let mut reader: Reader = Reader {
        config: CameraConfig::default(),
        warnings: Vec::new(),
        in_cameras: false,
    };
    let mut rest: &[char] = text.as_slice();
    let mut line_number: usize = 0;
    let ghost all = lines(contents@);
    assert(views(reader.warnings@) =~= Seq::empty());
    assert(all =~= all.take(0) + lines(rest@));
    while rest.len() > 0
        invariant
            all == lines(contents@),
            line_number + rest.len() <= text.len(),
            line_number <= all.len(),
            all == all.take(line_number as int) + lines(rest@),
            read_lines(all, line_number as nat) == Ok::<Progress, (nat, LineError)>(
                reader.progress(),
            ),
        decreases rest.len(),
    {
        let ghost before = rest@;
        let (line, behind) = first_line(rest);
        rest = behind;
        line_number = line_number + 1;
        proof {
            let taken = all.take(line_number - 1);
            assert(all == taken + lines(before));
            assert(all[line_number - 1] == line@);
            assert(all.take(line_number as int) =~= taken.push(line@));
            assert(all =~= all.take(line_number as int) + lines(rest@));
        }
        match reader.read_line(line) {
            Ok(()) => {},
            Err(error) => {
                proof {
                    lemma_error_stays(all, line_number as nat, all.len());
                }
                return Err(message_of(line_number, error));
            },
        }
    }
    assert(lines(rest@) =~= Seq::empty());
    assert(all.take(line_number as int) =~= all);
    let Reader { mut config, warnings, in_cameras: _ } = reader;
    config.disabled_mask = mask_of(&config);
    Ok((config, warnings))
}

} // verus!
