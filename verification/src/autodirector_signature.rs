//! Finds the block of code in which the game overrides the observer's view and decodes what a
//! patch of that block has to know.
use vstd::prelude::*;

use crate::bytes::{le_at, numbers_at_an_offset_are_made_of_the_data, read_u32, signed_32};
use crate::pattern::{
    find_pattern, match_offsets, matches_at, search_is_determined, search_result, PatternSearch,
};

verus! {

/// The length of the override block, and so of a patch that replaces it.
pub const PATCH_LEN: usize = 26;

const CALL_LEN: usize = 5;

const VIEW_SETUP_MOVE_OFFSET: usize = 5;

/// The length of the move that hands the view setup to the override.
pub const VIEW_SETUP_MOVE_LEN: usize = 3;

const JMP_OFFSET: usize = 21;

const JMP_LEN: usize = 5;

/// The stable shape of the autodirector's observer override block. The register that holds the
/// view setup is left open and decoded afterwards.
pub open spec fn signature() -> Seq<Option<u8>> {
    seq![
        Some(0xe8u8),  // call get observer state
        None,
        None,
        None,
        None,
        None,  // REX.W: mov rdx,<register>
        Some(0x8bu8),
        None,  // ModRM
        Some(0x48u8),
        Some(0x8bu8),
        Some(0x08u8),  // mov rcx,[rax]
        Some(0x4cu8),
        Some(0x8bu8),
        Some(0x41u8),
        Some(0x28u8),  // mov r8,[rcx+28h]
        Some(0x48u8),
        Some(0x8bu8),
        Some(0xc8u8),  // mov rcx,rax
        Some(0x41u8),
        Some(0xffu8),
        Some(0xd0u8),  // call r8
        Some(0xe9u8),  // jmp past normal view setup
        None,
        None,
        None,
        None,
    ]
}

/// Whether the bytes encode `mov rdx,<register>`, the register being any of the sixteen.
pub open spec fn moves_register_into_rdx(bytes: Seq<u8>) -> bool {
    &&& bytes.len() == 3
    &&& bytes[0] == 0x48 || bytes[0] == 0x49
    &&& bytes[1] == 0x8b
    &&& 0xd0 <= bytes[2] <= 0xd7
}

/// Where the branch instruction of `len` bytes at offset `at` leads, if that lies in `text`. The
/// displacement is in the four bytes behind the opcode.
pub open spec fn branch_target(text: Seq<u8>, at: int, len: int) -> Option<int> {
    match le_at(text, at + 1, 4) {
        Some(displacement) => {
            let target = at + len + signed_32(displacement);
            if 0 <= target < text.len() {
                Some(target)
            } else {
                None
            }
        },
        None => None,
    }
}

/// An offset as a mathematical number.
pub open spec fn offset_view(offset: Option<usize>) -> Option<int> {
    match offset {
        Some(v) => Some(v as int),
        None => None,
    }
}

/// How the analysis of a text section ended.
#[derive(Clone, Copy, Debug, Eq, PartialEq, Structural)]
pub enum AnalysisStatus {
    Compatible,
    NotFound,
    Ambiguous,
    UnsupportedViewSetupMove,
    CallTargetOutsideText,
    JumpTargetOutsideText,
}

impl AnalysisStatus {
    /// The name under which the status is reported.
    pub open spec fn name(self) -> Seq<char> {
        match self {
            AnalysisStatus::Compatible => "compatible"@,
            AnalysisStatus::NotFound => "not_found"@,
            AnalysisStatus::Ambiguous => "ambiguous"@,
            AnalysisStatus::UnsupportedViewSetupMove => "unsupported_view_setup_move"@,
            AnalysisStatus::CallTargetOutsideText => "call_target_outside_text"@,
            AnalysisStatus::JumpTargetOutsideText => "jump_target_outside_text"@,
        }
    }

    /// The name under which the status is reported.
    pub fn as_str(self) -> (r: &'static str)
        ensures
            r@ == self.name(),
    {
        match self {
            AnalysisStatus::Compatible => "compatible",
            AnalysisStatus::NotFound => "not_found",
            AnalysisStatus::Ambiguous => "ambiguous",
            AnalysisStatus::UnsupportedViewSetupMove => "unsupported_view_setup_move",
            AnalysisStatus::CallTargetOutsideText => "call_target_outside_text",
            AnalysisStatus::JumpTargetOutsideText => "jump_target_outside_text",
        }
    }
}

/// What the analysis of a text section found. Offsets count from the section's first byte.
#[derive(Clone, Copy, Debug, Eq, PartialEq)]
pub struct AnalysisReport {
    pub status: AnalysisStatus,
    pub matches: usize,
    pub patch_offset: Option<usize>,
    pub view_setup_argument_move: Option<[u8; VIEW_SETUP_MOVE_LEN]>,
    pub get_observer_state_offset: Option<usize>,
    pub original_jump_target_offset: Option<usize>,
}

impl AnalysisReport {
    /// Whether this is the report on `text`.
    pub open spec fn describes(self, text: Seq<u8>) -> bool {
        &&& search_result(text, signature(), self.matches, self.patch_offset)
        &&& match self.patch_offset {
            None => {
                &&& self.status == if self.matches == 0 {
                    AnalysisStatus::NotFound
                } else {
                    AnalysisStatus::Ambiguous
                }
                &&& self.view_setup_argument_move is None
                &&& self.get_observer_state_offset is None
                &&& self.original_jump_target_offset is None
            },
            Some(patch) => {
                let view_move = text.subrange(patch + 5, patch + 8);
                let call = branch_target(text, patch as int, 5);
                let jump = branch_target(text, patch + 21, 5);
                let supported = moves_register_into_rdx(view_move);
                &&& self.status == if !supported {
                    AnalysisStatus::UnsupportedViewSetupMove
                } else if call is None {
                    AnalysisStatus::CallTargetOutsideText
                } else if jump is None {
                    AnalysisStatus::JumpTargetOutsideText
                } else {
                    AnalysisStatus::Compatible
                }
                &&& self.view_setup_argument_move matches Some(found) && found@ == view_move
                &&& offset_view(self.get_observer_state_offset) == if supported {
                    call
                } else {
                    None
                }
                &&& offset_view(self.original_jump_target_offset) == if supported && call is Some {
                    jump
                } else {
                    None
                }
            },
        }
    }

    /// Whether the patch can be installed.
    pub fn is_compatible(self) -> (r: bool)
        ensures
            r == (self.status == AnalysisStatus::Compatible),
    {
        matches!(self.status, AnalysisStatus::Compatible)
    }
}

/// Law: a byte sequence has one report.
pub proof fn report_is_determined(text: Seq<u8>, first: AnalysisReport, second: AnalysisReport)
    requires
        first.describes(text),
        second.describes(text),
    ensures
        first == second,
{
    search_is_determined(
        text,
        signature(),
        PatternSearch { matches: first.matches, unique_offset: first.patch_offset },
        PatternSearch { matches: second.matches, unique_offset: second.patch_offset },
    );
    if first.patch_offset is Some {
        assert(first.view_setup_argument_move->0@ =~= second.view_setup_argument_move->0@);
        assert(first.view_setup_argument_move->0 =~= second.view_setup_argument_move->0);
    }
}

/// What a report names lies inside the section, and so does the whole block.
pub proof fn lemma_offsets_inside(text: Seq<u8>, report: AnalysisReport)
    requires
        report.describes(text),
    ensures
        report.patch_offset matches Some(patch) ==> patch + PATCH_LEN <= text.len(),
        report.get_observer_state_offset matches Some(target) ==> target < text.len(),
        report.original_jump_target_offset matches Some(target) ==> target < text.len(),
{
    if let Some(patch) = report.patch_offset {
        assert(set![patch as int].contains(patch as int));
        assert(match_offsets(text, signature()).contains(patch as int));
    }
}

/// Law: what a compatible report hands on is complete and lies inside the section: the block,
/// the move, and both branch targets.
pub proof fn compatible_report_is_complete(text: Seq<u8>, report: AnalysisReport)
    requires
        report.describes(text),
        report.status == AnalysisStatus::Compatible,
    ensures
        report.matches == 1,
        report.patch_offset matches Some(patch) && patch + PATCH_LEN <= text.len() && matches_at(
            text,
            signature(),
            patch as int,
        ),
        report.view_setup_argument_move matches Some(bytes) && moves_register_into_rdx(bytes@),
        report.get_observer_state_offset matches Some(target) && target < text.len(),
        report.original_jump_target_offset matches Some(target) && target < text.len(),
{
    let patch = report.patch_offset->0 as int;
    assert(set![patch].contains(patch));
    assert(match_offsets(text, signature()).contains(patch));
}

/// Law: a text section in which the block occurs more than once, or not at all, is never
/// declared compatible, whatever else it holds.
pub proof fn only_a_lone_block_is_compatible(text: Seq<u8>, report: AnalysisReport)
    requires
        report.describes(text),
        match_offsets(text, signature()).len() != 1,
    ensures
        report.status != AnalysisStatus::Compatible,
        report.status == AnalysisStatus::NotFound || report.status == AnalysisStatus::Ambiguous,
{
}

/// Law: the block is known by the bytes of its instructions. Left open are the two displacements,
/// and of the move in front everything but its opcode.
pub proof fn block_is_known_by_its_bytes(text: Seq<u8>, at: int)
    ensures
        signature().len() == PATCH_LEN,
        matches_at(text, signature(), at) <==> {
            &&& text[at] == 0xe8
            &&& text[at + 6] == 0x8b
            &&& text[at + 8] == 0x48 && text[at + 9] == 0x8b && text[at + 10] == 0x08
            &&& text[at + 11] == 0x4c && text[at + 12] == 0x8b && text[at + 13] == 0x41
            &&& text[at + 14] == 0x28
            &&& text[at + 15] == 0x48 && text[at + 16] == 0x8b && text[at + 17] == 0xc8
            &&& text[at + 18] == 0x41 && text[at + 19] == 0xff && text[at + 20] == 0xd0
            &&& text[at + 21] == 0xe9
        },
{
    let s = signature();
    if matches_at(text, s, at) {
        assert(s[0] is Some && s[6] is Some && s[8] is Some && s[9] is Some && s[10] is Some);
        assert(s[11] is Some && s[12] is Some && s[13] is Some && s[14] is Some);
        assert(s[15] is Some && s[16] is Some && s[17] is Some && s[18] is Some);
        assert(s[19] is Some && s[20] is Some && s[21] is Some);
    }
}

/// Law: the moves that are supported are those from one of the sixteen registers into `rdx`, each
/// in its one encoding: the upper eight registers take the lowest bit of the prefix.
pub proof fn supported_moves_read_one_of_sixteen_registers(register: int, bytes: Seq<u8>)
    ensures
        0 <= register < 16 ==> moves_register_into_rdx(
            seq![(0x48 + register / 8) as u8, 0x8bu8, (0xd0 + register % 8) as u8],
        ),
        moves_register_into_rdx(bytes) ==> {
            let source = 8 * (bytes[0] - 0x48) + bytes[2] - 0xd0;
            &&& 0 <= source < 16
            &&& bytes == seq![(0x48 + source / 8) as u8, 0x8bu8, (0xd0 + source % 8) as u8]
        },
{
    if moves_register_into_rdx(bytes) {
        let source = 8 * (bytes[0] - 0x48) + bytes[2] - 0xd0;
        assert(bytes =~= seq![(0x48 + source / 8) as u8, 0x8bu8, (0xd0 + source % 8) as u8]);
    }
}

/// Law: a branch is resolved wherever its target lies in the text, for every displacement that 32
/// bits can hold, forwards and backwards, and only there.
pub proof fn branches_are_resolved_inside_the_text(
    text: Seq<u8>,
    at: int,
    len: int,
    displacement: int,
)
    requires
        0 <= at,
        at + 5 <= text.len(),
        -0x8000_0000 <= displacement < 0x8000_0000,
        text[at + 1] + 0x100 * text[at + 2] + 0x1_0000 * text[at + 3] + 0x100_0000 * text[at + 4]
            == if displacement < 0 {
            displacement + 0x1_0000_0000
        } else {
            displacement
        },
    ensures
        branch_target(text, at, len) == if 0 <= at + len + displacement < text.len() {
            Some(at + len + displacement)
        } else {
            None
        },
{
    numbers_at_an_offset_are_made_of_the_data(text, at + 1);
}

/// Law: a branch whose displacement is not all there is not resolved.
pub proof fn branches_need_a_whole_displacement(text: Seq<u8>, at: int, len: int)
    requires
        0 <= at,
        text.len() < at + 5,
    ensures
        branch_target(text, at, len) is None,
{
}

/// Law: a report counts every place at which the block stands, and no other.
pub proof fn reports_count_every_block(text: Seq<u8>, report: AnalysisReport, places: Set<int>)
    requires
        report.describes(text),
        forall|at: int|
            places.contains(at) <==> 0 <= at && at + PATCH_LEN <= text.len() && matches_at(
                text,
                signature(),
                at,
            ),
    ensures
        places.finite(),
        report.matches == places.len(),
{
    assert(signature().len() == PATCH_LEN);
    assert(places =~= match_offsets(text, signature()));
}

/// Law: what a report says of a text in which the block stands at one place only. With a move
/// into `rdx` and both branches leading into the text it is compatible; else it names the first
/// that is not so, and the targets in front of it.
pub proof fn a_lone_block_is_reported(
    text: Seq<u8>,
    report: AnalysisReport,
    at: int,
    call: int,
    jump: int,
)
    requires
        report.describes(text),
        0 <= at,
        at + PATCH_LEN <= text.len(),
        matches_at(text, signature(), at),
        forall|other: int|
            0 <= other && other + PATCH_LEN <= text.len() && #[trigger] matches_at(
                text,
                signature(),
                other,
            ) ==> other == at,
        -0x8000_0000 <= call < 0x8000_0000,
        text[at + 1] + 0x100 * text[at + 2] + 0x1_0000 * text[at + 3] + 0x100_0000 * text[at + 4]
            == if call < 0 {
            call + 0x1_0000_0000
        } else {
            call
        },
        -0x8000_0000 <= jump < 0x8000_0000,
        text[at + 22] + 0x100 * text[at + 23] + 0x1_0000 * text[at + 24] + 0x100_0000 * text[at
            + 25] == if jump < 0 {
            jump + 0x1_0000_0000
        } else {
            jump
        },
    ensures
        report.matches == 1,
        report.patch_offset matches Some(patch) && patch == at,
        report.view_setup_argument_move matches Some(bytes) && bytes@ == seq![
            text[at + 5],
            text[at + 6],
            text[at + 7],
        ],
        ({
            let move_supported = moves_register_into_rdx(
                seq![text[at + 5], text[at + 6], text[at + 7]],
            );
            let call_inside = 0 <= at + 5 + call < text.len();
            let jump_inside = 0 <= at + 26 + jump < text.len();
            &&& report.status == AnalysisStatus::Compatible <==> move_supported && call_inside
                && jump_inside
            &&& report.status == AnalysisStatus::UnsupportedViewSetupMove <==> !move_supported
            &&& report.status == AnalysisStatus::CallTargetOutsideText <==> move_supported
                && !call_inside
            &&& report.status == AnalysisStatus::JumpTargetOutsideText <==> move_supported
                && call_inside && !jump_inside
            &&& if move_supported && call_inside {
                report.get_observer_state_offset matches Some(target) && target == at + 5 + call
            } else {
                report.get_observer_state_offset is None
            }
            &&& if move_supported && call_inside && jump_inside {
                report.original_jump_target_offset matches Some(target) && target == at + 26 + jump
            } else {
                report.original_jump_target_offset is None
            }
        }),
{
    let offsets = match_offsets(text, signature());
    assert(signature().len() == PATCH_LEN);
    assert(offsets =~= set![at]);
    if let Some(patch) = report.patch_offset {
        assert(set![patch as int].contains(patch as int));
    }
    branches_are_resolved_inside_the_text(text, at, 5, call);
    branches_are_resolved_inside_the_text(text, at + 21, 5, jump);
    assert(text.subrange(at + 5, at + 8) =~= seq![text[at + 5], text[at + 6], text[at + 7]]);
}

/// Law: what a report says of a text in which the block stands nowhere, or at two places.
pub proof fn missing_and_repeated_blocks_are_reported(
    text: Seq<u8>,
    report: AnalysisReport,
    first: int,
    second: int,
)
    requires
        report.describes(text),
    ensures
        (forall|at: int|
            0 <= at && at + PATCH_LEN <= text.len() ==> !#[trigger] matches_at(
                text,
                signature(),
                at,
            )) ==> report.status == AnalysisStatus::NotFound && report.matches == 0,
        0 <= first < second && second + PATCH_LEN <= text.len() && matches_at(
            text,
            signature(),
            first,
        ) && matches_at(text, signature(), second) ==> report.status == AnalysisStatus::Ambiguous
            && report.matches >= 2,
        report.status == AnalysisStatus::NotFound || report.status == AnalysisStatus::Ambiguous
            ==> report.patch_offset is None && report.view_setup_argument_move is None
            && report.get_observer_state_offset is None
            && report.original_jump_target_offset is None,
{
    let offsets = match_offsets(text, signature());
    assert(signature().len() == PATCH_LEN);
    if forall|at: int|
        0 <= at && at + PATCH_LEN <= text.len() ==> !#[trigger] matches_at(text, signature(), at) {
        assert(offsets =~= Set::empty());
    }
    if 0 <= first < second && second + PATCH_LEN <= text.len() && matches_at(
        text,
        signature(),
        first,
    ) && matches_at(text, signature(), second) {
        assert(offsets.contains(first) && offsets.contains(second));
        vstd::set_lib::lemma_len_subset(set![first, second], offsets);
    }
}

fn signature_pattern() -> (r: [Option<u8>; PATCH_LEN])
    ensures
        r@ == signature(),
{
    [
        Some(0xe8),
        None,
        None,
        None,
        None,
        None,
        Some(0x8b),
        None,
        Some(0x48),
        Some(0x8b),
        Some(0x08),
        Some(0x4c),
        Some(0x8b),
        Some(0x41),
        Some(0x28),
        Some(0x48),
        Some(0x8b),
        Some(0xc8),
        Some(0x41),
        Some(0xff),
        Some(0xd0),
        Some(0xe9),
        None,
        None,
        None,
        None,
    ]
}

/// Looks for the override block in `text` and decodes it.
pub fn analyze_autodirector_view_override(text: &[u8]) -> (r: AnalysisReport)
    ensures
        r.describes(text@),
{
    let pattern: [Option<u8>; PATCH_LEN] = signature_pattern();
    let (matches, unique_offset) = find_unique_pattern(text, &pattern);
    let patch_offset: usize = match unique_offset {
        Some(offset) => offset,
        None => {
            return AnalysisReport {
                status: if matches == 0 {
                    AnalysisStatus::NotFound
                } else {
                    AnalysisStatus::Ambiguous
                },
                matches,
                patch_offset: None,
                view_setup_argument_move: None,
                get_observer_state_offset: None,
                original_jump_target_offset: None,
            };
        },
    };
    proof {
        assert(set![patch_offset as int].contains(patch_offset as int));
        assert(match_offsets(text@, signature()).contains(patch_offset as int));
        assert(text.len() == text@.len());
    }

    let block: &[u8] = &text[patch_offset..patch_offset + PATCH_LEN];
    let view_setup_argument_move: [u8; VIEW_SETUP_MOVE_LEN] = [
        block[VIEW_SETUP_MOVE_OFFSET],
        block[VIEW_SETUP_MOVE_OFFSET + 1],
        block[VIEW_SETUP_MOVE_OFFSET + 2],
    ];
    assert(view_setup_argument_move@ =~= text@.subrange(patch_offset + 5, patch_offset + 8));
    if !is_view_setup_argument_move(view_setup_argument_move) {
        return report_with_move(
            AnalysisStatus::UnsupportedViewSetupMove,
            matches,
            patch_offset,
            view_setup_argument_move,
            None,
            None,
        );
    }
    let get_observer_state_offset: usize = match relative_target(text, patch_offset, CALL_LEN) {
        Some(offset) => offset,
        None => {
            return report_with_move(
                AnalysisStatus::CallTargetOutsideText,
                matches,
                patch_offset,
                view_setup_argument_move,
                None,
                None,
            );
        },
    };
    let original_jump_target_offset: usize = match relative_target(
        text,
        patch_offset + JMP_OFFSET,
        JMP_LEN,
    ) {
        Some(offset) => offset,
        None => {
            return report_with_move(
                AnalysisStatus::JumpTargetOutsideText,
                matches,
                patch_offset,
                view_setup_argument_move,
                Some(get_observer_state_offset),
                None,
            );
        },
    };

    report_with_move(
        AnalysisStatus::Compatible,
        matches,
        patch_offset,
        view_setup_argument_move,
        Some(get_observer_state_offset),
        Some(original_jump_target_offset),
    )
}

/// Counts the matches of `pattern`, of which an empty one has none, and tells the offset of a
/// lone match.
pub fn find_unique_pattern(haystack: &[u8], pattern: &[Option<u8>]) -> (r: (usize, Option<usize>))
    ensures
        pattern@.len() == 0 ==> r == (0usize, None::<usize>),
        pattern@.len() > 0 ==> search_result(haystack@, pattern@, r.0, r.1),
{
    if pattern.len() == 0 {
        return (0, None);
    }
    let search: PatternSearch = find_pattern(haystack, pattern);
    (search.matches, search.unique_offset)
}

fn report_with_move(
    status: AnalysisStatus,
    matches: usize,
    patch_offset: usize,
    view_setup_argument_move: [u8; VIEW_SETUP_MOVE_LEN],
    get_observer_state_offset: Option<usize>,
    original_jump_target_offset: Option<usize>,
) -> (r: AnalysisReport)
    ensures
        r == (AnalysisReport {
            status,
            matches,
            patch_offset: Some(patch_offset),
            view_setup_argument_move: Some(view_setup_argument_move),
            get_observer_state_offset,
            original_jump_target_offset,
        }),
{
    AnalysisReport {
        status,
        matches,
        patch_offset: Some(patch_offset),
        view_setup_argument_move: Some(view_setup_argument_move),
        get_observer_state_offset,
        original_jump_target_offset,
    }
}

/// Whether the bytes encode `mov rdx,<register>`.
pub fn is_view_setup_argument_move(bytes: [u8; VIEW_SETUP_MOVE_LEN]) -> (r: bool)
    ensures
        r == moves_register_into_rdx(bytes@),
{
    let rex_w_with_optional_source_extension: bool = bytes[0] == 0x48 || bytes[0] == 0x49;
    let mod_rm: u8 = bytes[2];
    proof {
        assert((mod_rm & 0xf8 == 0xd0) <==> (0xd0 <= mod_rm <= 0xd7)) by (bit_vector);
    }
    let moves_a_register_into_rdx: bool = bytes[1] == 0x8b && (mod_rm & 0xf8) == 0xd0;
    rex_w_with_optional_source_extension && moves_a_register_into_rdx
}

/// Where the branch instruction at `instruction_offset` leads, if that lies in `text`.
pub fn relative_target(
    text: &[u8],
    instruction_offset: usize,
    instruction_len: usize,
) -> (r: Option<usize>)
    ensures
        instruction_offset + instruction_len > usize::MAX ==> r is None,
        instruction_offset + instruction_len <= usize::MAX ==> offset_view(r) == branch_target(
            text@,
            instruction_offset as int,
            instruction_len as int,
        ),
{
    assert(text.len() == text@.len());
    let displacement_offset: usize = instruction_offset.checked_add(1)?;
    let displacement: u32 = read_u32(text, displacement_offset)?;
    let next: usize = instruction_offset.checked_add(instruction_len)?;
    let distance: i128 = if displacement < 0x8000_0000 {
        displacement as i128
    } else {
        displacement as i128 - 0x1_0000_0000
    };
    let target: i128 = next as i128 + distance;
    if 0 <= target && target < text.len() as i128 {
        Some(target as usize)
    } else {
        None
    }
}

} // verus!
