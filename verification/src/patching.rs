//! The patch inside the game: from the scan of the client module to the installed trampoline, and
//! back to the code that was there before.
use vstd::prelude::*;

use crate::autodirector_signature::{
    analyze_autodirector_view_override, compatible_report_is_complete, lemma_offsets_inside,
    moves_register_into_rdx, signature, AnalysisReport, AnalysisStatus, PATCH_LEN,
    VIEW_SETUP_MOVE_LEN,
};
use crate::bytes::lemma_le_bytes_len;
use crate::config::{views, Camera, CameraConfig};
use crate::execution::{
    camera_mode, camera_setting_decides_the_path, disabled_mode_runs_the_normal_setup,
    enabled_mode_replays_the_override, patch_enters_the_trampoline, query_answer,
    query_keeps_convention, reported_block_is_the_override,
};
use crate::machine::{bit, run, Callees, Machine, Outcome, Program, RAX};
use crate::pattern::matches_at;
use crate::runtime::{prefixed_hex, push_prefixed_hex};
use crate::text::{
    decimal, hex_byte, hexadecimal, is_part, lemma_part_of_three, lemma_part_stays, push_decimal,
    push_hex_byte,
};
use crate::trampoline::{build_conditional_trampoline, build_patch, patch_code, trampoline_code};
use vstd::string::StringExecFns;

verus! {

// ---------------------------------------------------------------------------------------------
// The scan of the client module.
// ---------------------------------------------------------------------------------------------

/// The analysis of the code of a loaded module.
#[derive(Clone, Copy, Debug, PartialEq, Eq)]
pub struct Scan {
    /// The address of the code.
    pub text_base: usize,
    /// How many bytes of code there are.
    pub size: usize,
    pub report: AnalysisReport,
}

impl Scan {
    /// Whether what the report names has an address: the block with its end, and the targets.
    pub open spec fn fits(self) -> bool {
        &&& self.report.patch_offset matches Some(offset) ==> self.text_base + offset + PATCH_LEN
            <= usize::MAX
        &&& self.report.get_observer_state_offset matches Some(offset) ==> self.text_base + offset
            <= usize::MAX
        &&& self.report.original_jump_target_offset matches Some(offset) ==> self.text_base
            + offset <= usize::MAX
    }
}

/// Analyses the code at `text_base`.
pub fn scan_text(text_base: usize, text: &[u8]) -> (r: Scan)
    requires
        text_base + text@.len() <= usize::MAX,
    ensures
        r.text_base == text_base,
        r.size == text@.len(),
        r.report.describes(text@),
        r.fits(),
{
    let report: AnalysisReport = analyze_autodirector_view_override(text);
    proof {
        lemma_offsets_inside(text@, report);
    }
    Scan { text_base, size: text.len(), report }
}

/// The addresses that the patch is made of.
#[derive(Clone, Copy, Debug, PartialEq, Eq)]
pub struct ResolvedViewOverride {
    /// Where the override block lies.
    pub patch_address: usize,
    /// The function that the block asks for the observer state.
    pub get_observer_state: usize,
    /// Where the block leads.
    pub original_jump_target: usize,
    /// The block's move of the view setup into `rdx`.
    pub view_setup_argument_move: [u8; VIEW_SETUP_MOVE_LEN],
}

/// Whether a report is complete and says that the patch can be installed.
pub open spec fn is_resolvable(report: AnalysisReport) -> bool {
    &&& report.status == AnalysisStatus::Compatible
    &&& report.view_setup_argument_move is Some
    &&& report.patch_offset is Some
    &&& report.get_observer_state_offset is Some
    &&& report.original_jump_target_offset is Some
}

/// What a scan finds: the addresses that its report leads to, where it can be resolved.
pub open spec fn resolved(scan: Scan) -> Option<ResolvedViewOverride> {
    if is_resolvable(scan.report) {
        Some(
            ResolvedViewOverride {
                patch_address: (scan.text_base + scan.report.patch_offset->0) as usize,
                get_observer_state: (scan.text_base
                    + scan.report.get_observer_state_offset->0) as usize,
                original_jump_target: (scan.text_base
                    + scan.report.original_jump_target_offset->0) as usize,
                view_setup_argument_move: scan.report.view_setup_argument_move->0,
            },
        )
    } else {
        None
    }
}

/// The message about a scan; the time it took comes in words.
pub open spec fn scan_message(scan: Scan, elapsed: Seq<char>) -> Seq<char> {
    "scanned client.dll .text size="@ + decimal(scan.size as nat) + " matches="@ + decimal(
        scan.report.matches as nat,
    ) + " status="@ + scan.report.status.name() + " elapsed_ms="@ + elapsed
}

/// The message about the move of the view setup.
pub open spec fn move_message(bytes: Seq<u8>) -> Seq<char> {
    "resolved view setup move="@ + hex_byte(bytes[0]) + " "@ + hex_byte(bytes[1]) + " "@
        + hex_byte(bytes[2])
}

/// The messages about a scan, or about a module that has no code to scan.
pub open spec fn scan_messages(scan: Option<Scan>, elapsed: Seq<char>) -> Seq<Seq<char>> {
    let not_found = "autodirector view override signature was not found or was unsafe"@;
    match scan {
        None => seq![not_found],
        Some(scan) => {
            let report = scan.report;
            seq![scan_message(scan, elapsed)] + (if report.status == AnalysisStatus::Compatible
                && report.view_setup_argument_move is Some {
                seq![move_message(report.view_setup_argument_move->0@)]
            } else {
                seq![]
            }) + (if is_resolvable(report) {
                seq![]
            } else {
                seq![not_found]
            })
        },
    }
}

/// What a scan led to, and what to log about it.
pub struct ScanConclusion {
    pub found: Option<ResolvedViewOverride>,
    pub log: Vec<String>,
}

/// Concludes the scan of a module, which took the time `elapsed`; there is no scan where the
/// module has no code section.
pub fn find_view_override(scan: Option<Scan>, elapsed: &str) -> (r: ScanConclusion)
    requires
        scan matches Some(scan) ==> scan.fits(),
    ensures
        r.found == match scan {
            Some(scan) => resolved(scan),
            None => None,
        },
        r.found matches Some(found) ==> found.patch_address + PATCH_LEN <= usize::MAX,
        views(r.log@) == scan_messages(scan, elapsed@),
{
    let mut log: Vec<String> = Vec::new();
    let mut found: Option<ResolvedViewOverride> = None;
    if let Some(scan) = scan {
        let mut message: String = "scanned client.dll .text size=".to_owned();
        push_decimal(&mut message, scan.size as u128);
        message.append(" matches=");
        push_decimal(&mut message, scan.report.matches as u128);
        message.append(" status=");
        message.append(scan.report.status.as_str());
        message.append(" elapsed_ms=");
        message.append(elapsed);
        log.push(message);
        if scan.report.is_compatible() {
            if let Some(bytes) = scan.report.view_setup_argument_move {
                let mut message: String = "resolved view setup move=".to_owned();
                push_hex_byte(&mut message, bytes[0]);
                message.append(" ");
                push_hex_byte(&mut message, bytes[1]);
                message.append(" ");
                push_hex_byte(&mut message, bytes[2]);
                log.push(message);
            }
        }
        found = resolve(scan);
    }
    if found.is_none() {
        log.push("autodirector view override signature was not found or was unsafe".to_owned());
    }
    assert(views(log@) =~= scan_messages(scan, elapsed@));
    ScanConclusion { found, log }
}

fn resolve(scan: Scan) -> (r: Option<ResolvedViewOverride>)
    requires
        scan.fits(),
    ensures
        r == resolved(scan),
{
    if !scan.report.is_compatible() {
        return None;
    }
    let view_setup_argument_move: [u8; VIEW_SETUP_MOVE_LEN] =
        scan.report.view_setup_argument_move?;
    Some(
        ResolvedViewOverride {
            patch_address: scan.text_base + scan.report.patch_offset?,
            get_observer_state: scan.text_base + scan.report.get_observer_state_offset?,
            original_jump_target: scan.text_base + scan.report.original_jump_target_offset?,
            view_setup_argument_move,
        },
    )
}

// ---------------------------------------------------------------------------------------------
// The installed patch.
// ---------------------------------------------------------------------------------------------

/// Bytes to be written into the game's code.
#[derive(Debug, PartialEq, Eq)]
pub struct WriteRequest {
    pub address: usize,
    pub bytes: Vec<u8>,
}

/// What became of an attempt to change the game's code.
pub struct WriteOutcome {
    /// A trampoline that nothing leads to any more, to be given back.
    pub release: Option<usize>,
    pub log: Vec<String>,
}

/// A patch on its way into the game.
pub struct Installation {
    pub target: ResolvedViewOverride,
    pub disabled_mask: u32,
    /// The code of the trampoline.
    pub code: Vec<u8>,
}

impl Installation {
    /// Whether the code is the trampoline for the target and the mask, which goes on behind the
    /// block where the override is not wanted.
    pub open spec fn valid(self) -> bool {
        self.code@ == trampoline_code(
            self.target.get_observer_state as nat,
            (self.target.patch_address + PATCH_LEN) as nat,
            self.target.original_jump_target as nat,
            self.target.view_setup_argument_move@,
            self.disabled_mask as nat,
        )
    }

    /// Assembles the trampoline.
    pub fn begin(target: ResolvedViewOverride, disabled_mask: u32) -> (r: Installation)
        requires
            target.patch_address + PATCH_LEN <= usize::MAX,
        ensures
            r.target == target,
            r.disabled_mask == disabled_mask,
            r.valid(),
    {
        let code: Vec<u8> = build_conditional_trampoline(
            target.get_observer_state,
            target.patch_address + PATCH_LEN,
            target.original_jump_target,
            target.view_setup_argument_move,
            disabled_mask,
        );
        Installation { target, disabled_mask, code }
    }
}

/// What follows the attempt to get memory for a trampoline.
pub struct Placement {
    /// What is to be written over the override block.
    pub write: Option<WriteRequest>,
    pub log: Vec<String>,
}

/// The message about a patch that could not be written.
pub open spec fn not_patched_message(address: nat) -> Seq<char> {
    "failed to write patch at address="@ + prefixed_hex(address)
}

/// The messages about an installed patch.
pub open spec fn patched_messages(installation: Installation, trampoline: nat) -> Seq<Seq<char>> {
    seq![
        "installed trampoline address="@ + prefixed_hex(trampoline) + " len="@ + decimal(
            installation.code@.len(),
        ),
        "patched view override address="@ + prefixed_hex(installation.target.patch_address as nat)
            + " len="@ + decimal(PATCH_LEN as nat) + " disabled_mask="@ + prefixed_hex(
            installation.disabled_mask as nat,
        ),
    ]
}

fn not_patched(address: usize) -> (r: String)
    ensures
        r@ == not_patched_message(address as nat),
{
    let mut message: String = "failed to write patch at address=".to_owned();
    push_prefixed_hex(&mut message, address);
    message
}

impl Installation {
    /// What to do with the trampoline, which lies at the given address unless no memory was to
    /// be had for it.
    pub fn place(&self, trampoline: Option<usize>) -> (r: Placement)
        ensures
            match trampoline {
                Some(address) => {
                    &&& r.write matches Some(write) && write.address == self.target.patch_address
                        && write.bytes@ == patch_code(address as nat)
                    &&& views(r.log@) == Seq::<Seq<char>>::empty()
                },
                None => {
                    &&& r.write is None
                    &&& views(r.log@) == seq![
                        "failed to allocate trampoline"@,
                        not_patched_message(self.target.patch_address as nat),
                    ]
                },
            },
    {
        let mut log: Vec<String> = Vec::new();
        match trampoline {
            Some(address) => {
                assert(views(log@) =~= Seq::<Seq<char>>::empty());
                Placement {
                    write: Some(
                        WriteRequest {
                            address: self.target.patch_address,
                            bytes: build_patch(address),
                        },
                    ),
                    log,
                }
            },
            None => {
                log.push("failed to allocate trampoline".to_owned());
                log.push(not_patched(self.target.patch_address));
                assert(views(log@) =~= seq![
                    "failed to allocate trampoline"@,
                    not_patched_message(self.target.patch_address as nat),
                ]);
                Placement { write: None, log }
            },
        }
    }
}

/// What is known of the patch: whether it is in place, where, the trampoline that it leads to,
/// and the code that it took the place of. An address of zero stands for none.
#[derive(Clone, Copy, Debug, PartialEq, Eq)]
pub struct PatchState {
    pub patched: bool,
    pub patch_address: usize,
    pub trampoline_address: usize,
    pub original_bytes: [u8; PATCH_LEN],
}

/// An address, unless it stands for none.
pub open spec fn address_of(address: usize) -> Option<usize> {
    if address == 0 {
        None
    } else {
        Some(address)
    }
}

impl PatchState {
    /// The state after the original code has been noted.
    pub open spec fn remembering(self, original_bytes: [u8; PATCH_LEN]) -> PatchState {
        PatchState { original_bytes, ..self }
    }

    /// The state after a patch at `patch_address` has been put in place.
    pub open spec fn installed(self, patch_address: usize, trampoline: usize) -> PatchState {
        PatchState {
            patched: true,
            patch_address,
            trampoline_address: trampoline,
            ..self
        }
    }

    /// Where the original code has to be put back, if the patch is in place.
    pub open spec fn to_restore(self) -> Option<usize> {
        if self.patched {
            address_of(self.patch_address)
        } else {
            None
        }
    }

    /// The state after the original code has been asked for.
    pub open spec fn restoring(self) -> PatchState {
        if self.patched {
            PatchState { patched: false, patch_address: 0, ..self }
        } else {
            self
        }
    }

    /// The state after the original code has, or could not, be put back.
    pub open spec fn restored(self, written: bool) -> PatchState {
        if written {
            PatchState { trampoline_address: 0, ..self }
        } else {
            self
        }
    }

    /// Nothing is patched.
    pub fn new() -> (r: PatchState)
        ensures
            !r.patched,
            r.patch_address == 0,
            r.trampoline_address == 0,
            r.original_bytes@ == Seq::new(PATCH_LEN as nat, |i: int| 0u8),
    {
        let original_bytes: [u8; PATCH_LEN] = [0;PATCH_LEN];
        assert(original_bytes@ =~= Seq::new(PATCH_LEN as nat, |i: int| 0u8));
        PatchState { patched: false, patch_address: 0, trampoline_address: 0, original_bytes }
    }

    /// Notes the code that the patch will take the place of.
    pub fn remember(&mut self, original_bytes: [u8; PATCH_LEN])
        ensures
            *final(self) == old(self).remembering(original_bytes),
    {
        self.original_bytes = original_bytes;
    }

    /// Notes whether the patch that leads to `trampoline` could be written. If not, nothing leads
    /// to the trampoline.
    pub fn finish_install(
        &mut self,
        installation: &Installation,
        trampoline: usize,
        written: bool,
    ) -> (r: WriteOutcome)
        ensures
            *final(self) == if written {
                old(self).installed(installation.target.patch_address, trampoline)
            } else {
                *old(self)
            },
            r.release == if written {
                None
            } else {
                Some(trampoline)
            },
            views(r.log@) == if written {
                patched_messages(*installation, trampoline as nat)
            } else {
                seq![not_patched_message(installation.target.patch_address as nat)]
            },
    {
        let address: usize = installation.target.patch_address;
        let mut log: Vec<String> = Vec::new();
        if !written {
            log.push(not_patched(address));
            assert(views(log@) =~= seq![not_patched_message(address as nat)]);
            return WriteOutcome { release: Some(trampoline), log };
        }
        self.trampoline_address = trampoline;
        let mut message: String = "installed trampoline address=".to_owned();
        push_prefixed_hex(&mut message, trampoline);
        message.append(" len=");
        push_decimal(&mut message, installation.code.len() as u128);
        log.push(message);

        self.patch_address = address;
        self.patched = true;
        let mut message: String = "patched view override address=".to_owned();
        push_prefixed_hex(&mut message, address);
        message.append(" len=");
        push_decimal(&mut message, PATCH_LEN as u128);
        message.append(" disabled_mask=");
        push_prefixed_hex(&mut message, installation.disabled_mask as usize);
        log.push(message);
        assert(views(log@) =~= patched_messages(*installation, trampoline as nat));
        WriteOutcome { release: None, log }
    }

    /// Asks for the original code to be put back, where a patch is in place.
    pub fn begin_restore(&mut self) -> (r: Option<WriteRequest>)
        ensures
            *final(self) == old(self).restoring(),
            match r {
                Some(write) => old(self).to_restore() == Some(write.address) && write.bytes@
                    == old(self).original_bytes@,
                None => old(self).to_restore() is None,
            },
    {
        if !self.patched {
            return None;
        }
        self.patched = false;
        let address: usize = self.patch_address;
        self.patch_address = 0;
        if address == 0 {
            return None;
        }
        let mut bytes: Vec<u8> = Vec::with_capacity(PATCH_LEN);
        let mut i: usize = 0;
        while i < PATCH_LEN
            invariant
                i <= PATCH_LEN,
                bytes@ == self.original_bytes@.take(i as int),
            decreases PATCH_LEN - i,
        {
            bytes.push(self.original_bytes[i]);
            assert(bytes@ =~= self.original_bytes@.take(i + 1));
            i = i + 1;
        }
        assert(bytes@ =~= self.original_bytes@);
        Some(WriteRequest { address, bytes })
    }

    /// Notes whether the original code could be put back. If so, nothing leads to the trampoline
    /// any more; if not, the trampoline has to stay.
    pub fn finish_restore(&mut self, address: usize, written: bool) -> (r: WriteOutcome)
        ensures
            *final(self) == old(self).restored(written),
            r.release == if written {
                address_of(old(self).trampoline_address)
            } else {
                None
            },
            views(r.log@) == if written {
                seq![
                    "restored view override address="@ + prefixed_hex(address as nat) + " len="@
                        + decimal(PATCH_LEN as nat),
                ]
            } else {
                seq!["failed to restore view override address="@ + prefixed_hex(address as nat)]
            },
    {
        let mut log: Vec<String> = Vec::new();
        if !written {
            let mut message: String = "failed to restore view override address=".to_owned();
            push_prefixed_hex(&mut message, address);
            log.push(message);
            assert(views(log@) =~= seq![
                "failed to restore view override address="@ + prefixed_hex(address as nat),
            ]);
            return WriteOutcome { release: None, log };
        }
        let mut message: String = "restored view override address=".to_owned();
        push_prefixed_hex(&mut message, address);
        message.append(" len=");
        push_decimal(&mut message, PATCH_LEN as u128);
        log.push(message);
        assert(views(log@) =~= seq![
            "restored view override address="@ + prefixed_hex(address as nat) + " len="@ + decimal(
                PATCH_LEN as nat,
            ),
        ]);
        let trampoline: usize = self.trampoline_address;
        self.trampoline_address = 0;
        let release: Option<usize> = if trampoline != 0 {
            Some(trampoline)
        } else {
            None
        };
        WriteOutcome { release, log }
    }
}

// ---------------------------------------------------------------------------------------------
// Laws.
// ---------------------------------------------------------------------------------------------

/// Code after a write of `bytes` at offset `at`.
pub open spec fn overwritten(code: Seq<u8>, at: int, bytes: Seq<u8>) -> Seq<u8> {
    Seq::new(
        code.len(),
        |i: int|
            if at <= i < at + bytes.len() {
                bytes[i - at]
            } else {
                code[i]
            },
    )
}

/// Law: every code that the analysis calls compatible has an override to patch, inside the code.
pub proof fn compatible_scan_is_resolved(text: Seq<u8>, scan: Scan)
    requires
        scan.report.describes(text),
        scan.report.status == AnalysisStatus::Compatible,
        scan.text_base + text.len() <= usize::MAX,
    ensures
        resolved(scan) matches Some(found) && scan.text_base <= found.patch_address
            && found.patch_address + PATCH_LEN <= scan.text_base + text.len()
            && scan.text_base <= found.get_observer_state < scan.text_base + text.len()
            && scan.text_base <= found.original_jump_target < scan.text_base + text.len(),
{
    compatible_report_is_complete(text, scan.report);
}

/// Law: an override is found exactly where the report is compatible and complete. Its addresses
/// are as far from the address of the code as the offsets in the report say, and its move is the
/// one in the report.
pub proof fn addresses_count_from_the_code(scan: Scan)
    requires
        scan.fits(),
    ensures
        resolved(scan) is Some <==> scan.report.status == AnalysisStatus::Compatible
            && scan.report.view_setup_argument_move is Some && scan.report.patch_offset is Some
            && scan.report.get_observer_state_offset is Some
            && scan.report.original_jump_target_offset is Some,
        resolved(scan) matches Some(found) ==> {
            &&& found.patch_address - scan.text_base == scan.report.patch_offset->0
            &&& found.get_observer_state - scan.text_base
                == scan.report.get_observer_state_offset->0
            &&& found.original_jump_target - scan.text_base
                == scan.report.original_jump_target_offset->0
            &&& found.view_setup_argument_move == scan.report.view_setup_argument_move->0
        },
{
}

/// Law: what a scan finds in code are the bytes of the code: the block stands at the patch address,
/// counted from the address of the code, and its move is handed on.
pub proof fn the_block_stands_at_the_patch_address(text: Seq<u8>, scan: Scan)
    requires
        scan.report.describes(text),
        scan.text_base + text.len() <= usize::MAX,
    ensures
        resolved(scan) matches Some(found) ==> {
            let at = found.patch_address - scan.text_base;
            &&& 0 <= at && at + PATCH_LEN <= text.len()
            &&& matches_at(text, signature(), at)
            &&& found.view_setup_argument_move@ == seq![text[at + 5], text[at + 6], text[at + 7]]
        },
{
    if resolved(scan) is Some {
        compatible_report_is_complete(text, scan.report);
        let at = scan.report.patch_offset->0 as int;
        assert(text.subrange(at + 5, at + 8) =~= seq![text[at + 5], text[at + 6], text[at + 7]]);
    }
}

/// Law: the message about a scan shows the size, the count, the status and the time, each whole.
pub proof fn scan_message_shows_the_scan(scan: Scan, elapsed: Seq<char>)
    ensures
        is_part(
            scan_message(scan, elapsed),
            "scanned client.dll .text size="@ + decimal(scan.size as nat) + " matches="@,
        ),
        is_part(
            scan_message(scan, elapsed),
            " matches="@ + decimal(scan.report.matches as nat) + " status="@,
        ),
        is_part(
            scan_message(scan, elapsed),
            " status="@ + scan.report.status.name() + " elapsed_ms="@,
        ),
        exists|front: Seq<char>|
            scan_message(scan, elapsed) == #[trigger] (front + " elapsed_ms="@ + elapsed),
{
    let k1 = "scanned client.dll .text size="@;
    let k2 = " matches="@;
    let k3 = " status="@;
    let k4 = " elapsed_ms="@;
    let v1 = decimal(scan.size as nat);
    let v2 = decimal(scan.report.matches as nat);
    let v3 = scan.report.status.name();
    let s0 = Seq::<char>::empty();
    lemma_part_of_three(s0, k1, v1, k2);
    assert(s0 + k1 + v1 + k2 =~= k1 + v1 + k2);
    let s1 = k1 + v1;
    lemma_part_of_three(s1, k2, v2, k3);
    lemma_part_stays(s1 + k2, k1 + v1 + k2, v2);
    lemma_part_stays(s1 + k2 + v2, k1 + v1 + k2, k3);
    let s2 = s1 + k2 + v2;
    lemma_part_of_three(s2, k3, v3, k4);
    lemma_part_stays(s2 + k3, k1 + v1 + k2, v3);
    lemma_part_stays(s2 + k3 + v3, k1 + v1 + k2, k4);
    lemma_part_stays(s2 + k3, k2 + v2 + k3, v3);
    lemma_part_stays(s2 + k3 + v3, k2 + v2 + k3, k4);
    let front = s2 + k3 + v3;
    lemma_part_stays(front + k4, k1 + v1 + k2, elapsed);
    lemma_part_stays(front + k4, k2 + v2 + k3, elapsed);
    lemma_part_stays(front + k4, k3 + v3 + k4, elapsed);
    assert(scan_message(scan, elapsed) == front + " elapsed_ms="@ + elapsed);
}

/// Law: the message about a move shows its three bytes in turn, two digits each.
pub proof fn move_message_shows_the_bytes(bytes: Seq<u8>)
    requires
        bytes.len() == 3,
    ensures
        move_message(bytes).len() == 33,
        move_message(bytes).take(25) == "resolved view setup move="@,
        move_message(bytes).subrange(25, 27) == hex_byte(bytes[0]),
        move_message(bytes).subrange(28, 30) == hex_byte(bytes[1]),
        move_message(bytes).subrange(31, 33) == hex_byte(bytes[2]),
{
    reveal_strlit("resolved view setup move=");
    reveal_strlit(" ");
    let m = move_message(bytes);
    assert(m.take(25) =~= "resolved view setup move="@);
    assert(m.subrange(25, 27) =~= hex_byte(bytes[0]));
    assert(m.subrange(28, 30) =~= hex_byte(bytes[1]));
    assert(m.subrange(31, 33) =~= hex_byte(bytes[2]));
}

/// Law: a scan is told about first, then the move that was found in compatible code, and last
/// that nothing can be patched, where that is so.
pub proof fn scans_are_told_about_in_turn(scan: Scan, elapsed: Seq<char>)
    ensures
        ({
            let told = scan_messages(Some(scan), elapsed);
            let nothing = "autodirector view override signature was not found or was unsafe"@;
            let has_move = scan.report.status == AnalysisStatus::Compatible
                && scan.report.view_setup_argument_move is Some;
            &&& told[0] == scan_message(scan, elapsed)
            &&& has_move ==> told.len() >= 2 && told[1] == move_message(
                scan.report.view_setup_argument_move->0@,
            )
            &&& resolved(scan) is None ==> told.len() == (if has_move {
                3int
            } else {
                2int
            }) && told.last() == nothing
            &&& resolved(scan) is Some ==> told.len() == 2
            &&& scan_messages(None, elapsed) == seq![nothing]
        }),
{
}

/// Law: the messages about an installed patch show its addresses, lengths and mask, each whole.
pub proof fn patched_messages_show_the_patch(installation: Installation, trampoline: nat)
    ensures
        ({
            let told = patched_messages(installation, trampoline);
            let address = installation.target.patch_address as nat;
            &&& told.len() == 2
            &&& is_part(
                told[0],
                "installed trampoline address="@ + ("0x"@ + hexadecimal(trampoline)) + " len="@,
            )
            &&& exists|front: Seq<char>|
                told[0] == #[trigger] (front + " len="@ + decimal(installation.code@.len()))
            &&& is_part(
                told[1],
                "patched view override address="@ + ("0x"@ + hexadecimal(address)) + " len="@,
            )
            &&& is_part(told[1], " len="@ + decimal(26) + " disabled_mask="@)
            &&& exists|front: Seq<char>|
                told[1] == #[trigger] (front + " disabled_mask="@ + ("0x"@ + hexadecimal(
                    installation.disabled_mask as nat,
                )))
            &&& not_patched_message(address) == "failed to write patch at address="@ + ("0x"@
                + hexadecimal(address))
        }),
{
    let told = patched_messages(installation, trampoline);
    let s0 = Seq::<char>::empty();
    let k1 = "installed trampoline address="@;
    let k2 = " len="@;
    let v1 = prefixed_hex(trampoline);
    let v2 = decimal(installation.code@.len());
    lemma_part_of_three(s0, k1, v1, k2);
    assert(s0 + k1 + v1 + k2 =~= k1 + v1 + k2);
    lemma_part_stays(k1 + v1 + k2, k1 + v1 + k2, v2);
    assert(told[0] == (k1 + v1) + " len="@ + v2);

    let address = installation.target.patch_address as nat;
    let j1 = "patched view override address="@;
    let j3 = " disabled_mask="@;
    let w1 = prefixed_hex(address);
    let w2 = decimal(26);
    let w3 = prefixed_hex(installation.disabled_mask as nat);
    lemma_part_of_three(s0, j1, w1, k2);
    assert(s0 + j1 + w1 + k2 =~= j1 + w1 + k2);
    lemma_part_of_three(j1 + w1, k2, w2, j3);
    lemma_part_stays(j1 + w1 + k2, j1 + w1 + k2, w2);
    lemma_part_stays(j1 + w1 + k2 + w2, j1 + w1 + k2, j3);
    lemma_part_stays(j1 + w1 + k2 + w2 + j3, j1 + w1 + k2, w3);
    lemma_part_stays(j1 + w1 + k2 + w2 + j3, k2 + w2 + j3, w3);
    assert(told[1] == (j1 + w1 + k2 + w2) + " disabled_mask="@ + w3);
}

/// Whether the jump at the end of the override block leads out of the block.
pub open spec fn leaves_the_block(target: ResolvedViewOverride) -> bool {
    target.original_jump_target < target.patch_address || target.patch_address + PATCH_LEN
        <= target.original_jump_target
}

/// Law: the installed patch leads to the trampoline, and the setting of the camera type that the
/// autodirector shows decides what happens there. With `false`, the code behind the block goes on
/// with the registers and the stack as they were. With `true`, the outcome is that of the
/// block whose place the patch took, provided that the block's jump leads out of the block, and
/// that the query for the observer state answers the trampoline's second call as it would have
/// answered the block's.
pub proof fn installed_patch_obeys_the_setting(
    text: Seq<u8>,
    scan: Scan,
    installation: Installation,
    trampoline: usize,
    callees: Callees,
    m: Machine,
    config: CameraConfig,
    camera: Camera,
)
    requires
        scan.report.describes(text),
        scan.text_base + text.len() <= usize::MAX,
        resolved(scan) == Some(installation.target),
        installation.valid(),
        installation.disabled_mask == config.disabled_mask,
        config.consistent(),
        m.valid(),
        query_keeps_convention(callees, installation.target.get_observer_state as nat, m),
        camera_mode(query_answer(callees, installation.target.get_observer_state as nat, m))
            == camera.mode(),
    ensures
        ({
            let target = installation.target;
            let at = target.patch_address as nat;
            let patch = Program { code: patch_code(trampoline as nat), address: at };
            let beyond = Program { code: installation.code@, address: trampoline as nat };
            let offset = target.patch_address - scan.text_base;
            let block = Program { code: text.subrange(offset, offset + PATCH_LEN), address: at };
            let memory = query_answer(callees, target.get_observer_state as nat, m).memory;
            let again = (Machine { memory, zero: true, ..m }).with_reg(
                RAX,
                target.get_observer_state as nat,
            );
            &&& run(patch, callees, 0, m, 1) == Outcome::Left(trampoline as nat, m)
            &&& !config.keeps(camera) ==> run(beyond, callees, 0, m, 31) == Outcome::Left(
                at + PATCH_LEN as nat,
                Machine { memory, zero: false, ..m },
            )
            &&& config.keeps(camera) && leaves_the_block(target) && callees(
                target.get_observer_state as nat,
                again,
            ) == callees(target.get_observer_state as nat, m) ==> run(beyond, callees, 0, m, 31)
                == run(block, callees, 0, m, 7)
        }),
{
    let target = installation.target;
    compatible_report_is_complete(text, scan.report);
    patch_enters_the_trampoline(target.patch_address as nat, callees, m, trampoline);
    camera_setting_decides_the_path(
        trampoline as nat,
        callees,
        m,
        target.get_observer_state,
        (target.patch_address + PATCH_LEN) as usize,
        target.original_jump_target,
        target.view_setup_argument_move@,
        config,
        camera,
    );
    if leaves_the_block(target) {
        reported_block_is_the_override(text, scan.text_base as nat, scan.report, callees, m);
    }
}

/// Law: a patch touches nothing but the block, and writing the noted bytes over it gives back the
/// code as it was.
pub proof fn restoring_gives_the_code_back(code: Seq<u8>, at: int, trampoline: usize)
    requires
        0 <= at,
        at + PATCH_LEN <= code.len(),
    ensures
        ({
            let patched = overwritten(code, at, patch_code(trampoline as nat));
            let original = code.subrange(at, at + PATCH_LEN);
            &&& patched.len() == code.len()
            &&& patched.subrange(at, at + PATCH_LEN) == patch_code(trampoline as nat)
            &&& patched.take(at) == code.take(at)
            &&& patched.skip(at + PATCH_LEN) == code.skip(at + PATCH_LEN)
            &&& overwritten(patched, at, original) == code
        }),
{
    lemma_le_bytes_len(trampoline as nat, 8);
    let patched = overwritten(code, at, patch_code(trampoline as nat));
    let original = code.subrange(at, at + PATCH_LEN);
    assert(patched.subrange(at, at + PATCH_LEN) =~= patch_code(trampoline as nat));
    assert(patched.take(at) =~= code.take(at));
    assert(patched.skip(at + PATCH_LEN) =~= code.skip(at + PATCH_LEN));
    assert(overwritten(patched, at, original) =~= code);
}

/// Law: after an installation the restore writes the noted bytes to where the patch was written.
/// Once that has worked, the trampoline is given back and there is nothing left to restore. Where
/// it has not, the trampoline stays.
pub proof fn restore_undoes_install(
    state: PatchState,
    original_bytes: [u8; PATCH_LEN],
    patch_address: usize,
    trampoline: usize,
)
    requires
        patch_address != 0,
        trampoline != 0,
    ensures
        ({
            let installed = state.remembering(original_bytes).installed(patch_address, trampoline);
            let asked = installed.restoring();
            &&& installed.to_restore() == Some(patch_address)
            &&& installed.original_bytes == original_bytes
            &&& address_of(asked.trampoline_address) == Some(trampoline)
            &&& forall|written: bool|
                {
                    let after = #[trigger] asked.restored(written);
                    &&& after.to_restore() is None
                    &&& address_of(after.trampoline_address) == if written {
                        None
                    } else {
                        Some(trampoline)
                    }
                }
        }),
{
}

/// Law: the way there and back leaves no trace. Where the noted bytes are the block at the patch
/// address, in code that lies at `base`, the restore after an installation asks for a write that
/// turns the patched code into the code as it was.
pub proof fn restore_after_install_gives_the_code_back(
    code: Seq<u8>,
    base: usize,
    state: PatchState,
    original_bytes: [u8; PATCH_LEN],
    patch_address: usize,
    trampoline: usize,
)
    requires
        patch_address != 0,
        base <= patch_address,
        patch_address + PATCH_LEN <= base + code.len(),
        original_bytes@ == code.subrange(patch_address - base, patch_address - base + PATCH_LEN),
    ensures
        ({
            let installed = state.remembering(original_bytes).installed(patch_address, trampoline);
            let patched = overwritten(
                code,
                patch_address - base,
                patch_code(trampoline as nat),
            );
            installed.to_restore() matches Some(address) && overwritten(
                patched,
                address - base,
                installed.original_bytes@,
            ) == code
        }),
{
    restoring_gives_the_code_back(code, patch_address - base, trampoline);
}

/// Law: the state follows what was done, for all addresses, and forgets nothing else.
pub proof fn the_state_follows_what_was_done(
    state: PatchState,
    original_bytes: [u8; PATCH_LEN],
    patch_address: usize,
    trampoline: usize,
)
    ensures
        ({
            let noted = state.remembering(original_bytes);
            let installed = state.installed(patch_address, trampoline);
            let asked = state.restoring();
            &&& noted.original_bytes == original_bytes
            &&& noted.patched == state.patched
            &&& noted.patch_address == state.patch_address
            &&& noted.trampoline_address == state.trampoline_address
            &&& installed.patched
            &&& installed.patch_address == patch_address
            &&& installed.trampoline_address == trampoline
            &&& installed.original_bytes == state.original_bytes
            &&& !asked.patched
            &&& state.patched ==> asked.patch_address == 0
            &&& !state.patched ==> asked == state
            &&& asked.original_bytes == state.original_bytes
            &&& asked.trampoline_address == state.trampoline_address
            &&& state.restored(false) == state
            &&& state.restored(true).trampoline_address == 0
            &&& state.restored(true).patched == state.patched
            &&& state.restored(true).patch_address == state.patch_address
            &&& state.restored(true).original_bytes == state.original_bytes
            &&& address_of(patch_address) is None <==> patch_address == 0
            &&& address_of(patch_address) matches Some(address) ==> address == patch_address
            &&& state.to_restore() is Some <==> state.patched && state.patch_address != 0
        }),
{
}

/// Law: the trampoline of an installation tests the bit of the camera mode in its mask, whatever
/// the mask is. Where the bit is set it goes on behind the block, and else where the block goes.
pub proof fn installation_tests_its_mask(
    installation: Installation,
    trampoline: nat,
    callees: Callees,
    m: Machine,
)
    requires
        installation.valid(),
        installation.target.patch_address + PATCH_LEN <= usize::MAX,
        moves_register_into_rdx(installation.target.view_setup_argument_move@),
        m.valid(),
        query_keeps_convention(callees, installation.target.get_observer_state as nat, m),
    ensures
        ({
            let target = installation.target;
            let mode = camera_mode(query_answer(callees, target.get_observer_state as nat, m));
            let end = run(
                Program { code: installation.code@, address: trampoline },
                callees,
                0,
                m,
                31,
            );
            end matches Outcome::Left(address, _) && address == if bit(
                installation.disabled_mask as nat,
                mode % 32,
            ) {
                target.patch_address + 26
            } else {
                target.original_jump_target as int
            }
        }),
{
    let target = installation.target;
    let mode = camera_mode(query_answer(callees, target.get_observer_state as nat, m));
    if bit(installation.disabled_mask as nat, mode % 32) {
        disabled_mode_runs_the_normal_setup(
            trampoline,
            callees,
            m,
            target.get_observer_state,
            (target.patch_address + PATCH_LEN) as usize,
            target.original_jump_target,
            target.view_setup_argument_move@,
            installation.disabled_mask,
        );
    } else {
        enabled_mode_replays_the_override(
            trampoline,
            callees,
            m,
            target.get_observer_state,
            (target.patch_address + PATCH_LEN) as usize,
            target.original_jump_target,
            target.view_setup_argument_move@,
            installation.disabled_mask,
        );
    }
}

/// Law: a second restore asks for nothing and changes nothing.
pub proof fn restoring_twice_is_restoring_once(state: PatchState)
    ensures
        state.restoring().to_restore() is None,
        state.restoring().restoring() == state.restoring(),
{
}

/// Law: where the patch was never installed, there is nothing to restore.
pub proof fn nothing_to_restore_before_install(state: PatchState, original_bytes: [u8; PATCH_LEN])
    requires
        !state.patched,
    ensures
        state.remembering(original_bytes).to_restore() is None,
        state.remembering(original_bytes).restoring() == state.remembering(original_bytes),
{
}

} // verus!
