//! The report on a file, as JSON.
use vstd::prelude::*;

use crate::autodirector_signature::{
    analyze_autodirector_view_override, lemma_offsets_inside, AnalysisReport, AnalysisStatus,
};
use crate::image::{
    coff_timestamp, text_section, text_section_from_file, text_section_is_part_of_the_file,
    timestamp, TextSection,
};
use crate::text::{
    characters, decimal, hex_byte, hexadecimal, is_part, lemma_part_of_three, lemma_part_stays,
    push_decimal, push_hex_byte, push_hexadecimal,
};
use vstd::string::StringExecFns;

verus! {

/// A character inside a JSON string: a backslash and a quotation mark get a backslash in front.
pub open spec fn escaped_character(c: char) -> Seq<char> {
    if c == '\\' || c == '"' {
        seq!['\\', c]
    } else {
        seq![c]
    }
}

/// A text inside a JSON string.
pub open spec fn escaped(s: Seq<char>) -> Seq<char>
    decreases s.len(),
{
    if s.len() == 0 {
        Seq::empty()
    } else {
        escaped_character(s[0]) + escaped(s.drop_first())
    }
}

/// What an escaped text stands for: a backslash passes on the character behind it.
pub open spec fn unescaped(s: Seq<char>) -> Seq<char>
    decreases s.len(),
{
    if s.len() == 0 {
        Seq::empty()
    } else if s[0] == '\\' && s.len() >= 2 {
        seq![s[1]] + unescaped(s.skip(2))
    } else {
        seq![s[0]] + unescaped(s.drop_first())
    }
}

/// Law: an escaped text stands for the text it was made of.
pub proof fn escaping_can_be_undone(s: Seq<char>)
    ensures
        unescaped(escaped(s)) == s,
    decreases s.len(),
{
    if s.len() > 0 {
        let rest = s.drop_first();
        escaping_can_be_undone(rest);
        let e = escaped(s);
        if s[0] == '\\' || s[0] == '"' {
            assert(e.skip(2) =~= escaped(rest));
        } else {
            assert(e.drop_first() =~= escaped(rest));
        }
        assert(seq![s[0]] + rest =~= s);
    }
}

/// A text with every `c` replaced.
pub open spec fn replaced(s: Seq<char>, c: char, by: Seq<char>) -> Seq<char>
    decreases s.len(),
{
    if s.len() == 0 {
        Seq::empty()
    } else {
        (if s[0] == c {
            by
        } else {
            seq![s[0]]
        }) + replaced(s.drop_first(), c, by)
    }
}

/// Law: escaping doubles the backslashes and then puts one in front of each quotation mark.
pub proof fn escaping_is_two_replacements(s: Seq<char>)
    ensures
        escaped(s) == replaced(replaced(s, '\\', seq!['\\', '\\']), '"', seq!['\\', '"']),
    decreases s.len(),
{
    let doubled = replaced(s, '\\', seq!['\\', '\\']);
    if s.len() > 0 {
        let rest = s.drop_first();
        escaping_is_two_replacements(rest);
        let doubled_rest = replaced(rest, '\\', seq!['\\', '\\']);
        if s[0] == '\\' {
            assert(doubled =~= seq!['\\', '\\'] + doubled_rest);
            assert(doubled.drop_first().drop_first() =~= doubled_rest);
            reveal_with_fuel(replaced, 3);
            assert(escaped(s) =~= seq!['\\'] + (seq!['\\'] + escaped(rest)));
        } else {
            assert(doubled.drop_first() =~= doubled_rest);
        }
    }
}

/// A JSON string, or `null`.
pub open spec fn optional_string_json(value: Option<Seq<char>>) -> Seq<char> {
    match value {
        Some(s) => "\""@ + escaped(s) + "\""@,
        None => "null"@,
    }
}

/// A JSON number, or `null`.
pub open spec fn optional_number_json(value: Option<nat>) -> Seq<char> {
    match value {
        Some(n) => decimal(n),
        None => "null"@,
    }
}

/// An address as a JSON string in hexadecimal notation, or `null`.
pub open spec fn optional_rva_json(value: Option<nat>) -> Seq<char> {
    match value {
        Some(n) => "\"0x"@ + hexadecimal(n) + "\""@,
        None => "null"@,
    }
}

/// Three bytes as a JSON string in hexadecimal notation, or `null`.
pub open spec fn optional_move_json(value: Option<[u8; 3]>) -> Seq<char> {
    match value {
        Some(bytes) => "\""@ + hex_byte(bytes[0]) + " "@ + hex_byte(bytes[1]) + " "@ + hex_byte(
            bytes[2],
        ) + "\""@,
        None => "null"@,
    }
}

/// An offset inside a section that lies at `rva`, as an address inside the image.
pub open spec fn rva_of(rva: nat, offset: Option<usize>) -> Option<nat> {
    match offset {
        Some(v) => Some(rva + v as nat),
        None => None,
    }
}

/// The part of the report on the file as a whole.
pub open spec fn file_json(
    input: Seq<char>,
    build_id: Option<Seq<char>>,
    file_size: nat,
    coff_timestamp: Option<nat>,
    rva: nat,
    text_size: nat,
) -> Seq<char> {
    "{\n  \"input\": \""@ + escaped(input) + "\",\n  \"build_id\": "@ + optional_string_json(
        build_id,
    ) + ",\n  \"file_size\": "@ + decimal(file_size) + ",\n  \"coff_timestamp\": "@
        + optional_number_json(coff_timestamp) + ",\n  \"text_rva\": \"0x"@ + hexadecimal(rva)
        + "\",\n  \"text_size\": "@ + decimal(text_size)
}

/// The part of the report on the override block.
pub open spec fn analysis_json(rva: nat, report: AnalysisReport) -> Seq<char> {
    ",\n  \"autodirector_view_override\": {\n    \"status\": \""@ + report.status.name()
        + "\",\n    \"matches\": "@ + decimal(report.matches as nat) + ",\n    \"patch_rva\": "@
        + optional_rva_json(rva_of(rva, report.patch_offset)) + ",\n    \"view_setup_move\": "@
        + optional_move_json(report.view_setup_argument_move)
        + ",\n    \"get_observer_state_rva\": "@ + optional_rva_json(
        rva_of(rva, report.get_observer_state_offset),
    ) + ",\n    \"normal_setup_jump_target_rva\": "@ + optional_rva_json(
        rva_of(rva, report.original_jump_target_offset),
    ) + "\n  }\n}"@
}

/// Law: a text is escaped character by character, however long it is.
pub proof fn escaping_goes_character_by_character(first: Seq<char>, second: Seq<char>, c: char)
    ensures
        escaped(first + second) == escaped(first) + escaped(second),
        c == '\\' || c == '"' ==> escaped(seq![c]) == seq!['\\', c],
        c != '\\' && c != '"' ==> escaped(seq![c]) == seq![c],
    decreases first.len(),
{
    assert(escaped(seq![c].drop_first()) =~= Seq::empty());
    assert(escaped(seq![c]) =~= escaped_character(c));
    if first.len() == 0 {
        assert(first + second =~= second);
        assert(escaped(first) + escaped(second) =~= escaped(second));
    } else {
        assert((first + second).drop_first() =~= first.drop_first() + second);
        escaping_goes_character_by_character(first.drop_first(), second, c);
        assert(escaped(first) + escaped(second) =~= escaped_character(first[0]) + (escaped(
            first.drop_first(),
        ) + escaped(second)));
    }
}

/// Law: an address in the report is as far from the address of the section as the offset in the
/// analysis says, and there is one exactly where the analysis has an offset.
pub proof fn addresses_count_from_the_section(rva: nat, offset: Option<usize>)
    ensures
        match rva_of(rva, offset) {
            Some(address) => offset is Some && address - rva == offset->0,
            None => offset is None,
        },
{
}

/// Law: the report shows each value of the file behind its key, whole and up to the next key.
pub proof fn report_shows_the_file(
    input: Seq<char>,
    build_id: Option<Seq<char>>,
    file_size: nat,
    coff_timestamp: Option<nat>,
    rva: nat,
    text_size: nat,
)
    ensures
        ({
            let json = file_json(input, build_id, file_size, coff_timestamp, rva, text_size);
            &&& is_part(
                json,
                "{\n  \"input\": \""@ + escaped(input) + "\",\n  \"build_id\": "@,
            )
            &&& is_part(
                json,
                "\",\n  \"build_id\": "@ + (match build_id {
                    Some(id) => "\""@ + escaped(id) + "\""@,
                    None => "null"@,
                }) + ",\n  \"file_size\": "@,
            )
            &&& is_part(
                json,
                ",\n  \"file_size\": "@ + decimal(file_size) + ",\n  \"coff_timestamp\": "@,
            )
            &&& is_part(
                json,
                ",\n  \"coff_timestamp\": "@ + (match coff_timestamp {
                    Some(stamp) => decimal(stamp),
                    None => "null"@,
                }) + ",\n  \"text_rva\": \"0x"@,
            )
            &&& is_part(
                json,
                ",\n  \"text_rva\": \"0x"@ + hexadecimal(rva) + "\",\n  \"text_size\": "@,
            )
            &&& is_part(json + ",\n"@, "\",\n  \"text_size\": "@ + decimal(text_size) + ",\n"@)
        }),
{
    let k1 = "{\n  \"input\": \""@;
    let k2 = "\",\n  \"build_id\": "@;
    let k3 = ",\n  \"file_size\": "@;
    let k4 = ",\n  \"coff_timestamp\": "@;
    let k5 = ",\n  \"text_rva\": \"0x"@;
    let k6 = "\",\n  \"text_size\": "@;
    let v1 = escaped(input);
    let v2 = optional_string_json(build_id);
    let v3 = decimal(file_size);
    let v4 = optional_number_json(coff_timestamp);
    let v5 = hexadecimal(rva);
    let v6 = decimal(text_size);
    let s0 = Seq::<char>::empty();
    lemma_part_of_three(s0, k1, v1, k2);
    assert(s0 + k1 + v1 + k2 =~= k1 + v1 + k2);
    let s1 = k1 + v1;
    lemma_part_of_three(s1, k2, v2, k3);
    lemma_part_stays(s1 + k2, k1 + v1 + k2, v2);
    lemma_part_stays(s1 + k2 + v2, k1 + v1 + k2, k3);
    let s2 = s1 + k2 + v2;
    lemma_part_of_three(s2, k3, v3, k4);
    lemma_two_more(s2 + k3, k1 + v1 + k2, v3, k4);
    lemma_two_more(s2 + k3, k2 + v2 + k3, v3, k4);
    let s3 = s2 + k3 + v3;
    lemma_part_of_three(s3, k4, v4, k5);
    lemma_two_more(s3 + k4, k1 + v1 + k2, v4, k5);
    lemma_two_more(s3 + k4, k2 + v2 + k3, v4, k5);
    lemma_two_more(s3 + k4, k3 + v3 + k4, v4, k5);
    let s4 = s3 + k4 + v4;
    lemma_part_of_three(s4, k5, v5, k6);
    lemma_two_more(s4 + k5, k1 + v1 + k2, v5, k6);
    lemma_two_more(s4 + k5, k2 + v2 + k3, v5, k6);
    lemma_two_more(s4 + k5, k3 + v3 + k4, v5, k6);
    lemma_two_more(s4 + k5, k4 + v4 + k5, v5, k6);
    let s5 = s4 + k5 + v5;
    lemma_part_stays(s5 + k6, k1 + v1 + k2, v6);
    lemma_part_stays(s5 + k6, k2 + v2 + k3, v6);
    lemma_part_stays(s5 + k6, k3 + v3 + k4, v6);
    lemma_part_stays(s5 + k6, k4 + v4 + k5, v6);
    lemma_part_stays(s5 + k6, k5 + v5 + k6, v6);
    lemma_part_of_three(s5, k6, v6, ",\n"@);
}

proof fn lemma_two_more(whole: Seq<char>, part: Seq<char>, one: Seq<char>, two: Seq<char>)
    requires
        is_part(whole, part),
    ensures
        is_part(whole + one + two, part),
{
    lemma_part_stays(whole, part, one);
    lemma_part_stays(whole + one, part, two);
}

/// Law: the report shows each value of the analysis behind its key, whole and up to the next key.
/// Addresses are the section's address and the offset added up.
pub proof fn report_shows_the_analysis(rva: nat, report: AnalysisReport)
    ensures
        ({
            let json = analysis_json(rva, report);
            &&& is_part(
                json,
                ",\n  \"autodirector_view_override\": {\n    \"status\": \""@
                    + report.status.name() + "\",\n    \"matches\": "@,
            )
            &&& is_part(
                json,
                "\",\n    \"matches\": "@ + decimal(report.matches as nat)
                    + ",\n    \"patch_rva\": "@,
            )
            &&& is_part(
                json,
                ",\n    \"patch_rva\": "@ + (match report.patch_offset {
                    Some(v) => "\"0x"@ + hexadecimal(rva + v as nat) + "\""@,
                    None => "null"@,
                }) + ",\n    \"view_setup_move\": "@,
            )
            &&& is_part(
                json,
                ",\n    \"view_setup_move\": "@ + (match report.view_setup_argument_move {
                    Some(bytes) => "\""@ + hex_byte(bytes[0]) + " "@ + hex_byte(bytes[1]) + " "@
                        + hex_byte(bytes[2]) + "\""@,
                    None => "null"@,
                }) + ",\n    \"get_observer_state_rva\": "@,
            )
            &&& is_part(
                json,
                ",\n    \"get_observer_state_rva\": "@ + (match report.get_observer_state_offset {
                    Some(v) => "\"0x"@ + hexadecimal(rva + v as nat) + "\""@,
                    None => "null"@,
                }) + ",\n    \"normal_setup_jump_target_rva\": "@,
            )
            &&& is_part(
                json,
                ",\n    \"normal_setup_jump_target_rva\": "@ + (
                match report.original_jump_target_offset {
                    Some(v) => "\"0x"@ + hexadecimal(rva + v as nat) + "\""@,
                    None => "null"@,
                }) + "\n  }\n}"@,
            )
        }),
{
    let k1 = ",\n  \"autodirector_view_override\": {\n    \"status\": \""@;
    let k2 = "\",\n    \"matches\": "@;
    let k3 = ",\n    \"patch_rva\": "@;
    let k4 = ",\n    \"view_setup_move\": "@;
    let k5 = ",\n    \"get_observer_state_rva\": "@;
    let k6 = ",\n    \"normal_setup_jump_target_rva\": "@;
    let k7 = "\n  }\n}"@;
    let v1 = report.status.name();
    let v2 = decimal(report.matches as nat);
    let v3 = optional_rva_json(rva_of(rva, report.patch_offset));
    let v4 = optional_move_json(report.view_setup_argument_move);
    let v5 = optional_rva_json(rva_of(rva, report.get_observer_state_offset));
    let v6 = optional_rva_json(rva_of(rva, report.original_jump_target_offset));
    let s0 = Seq::<char>::empty();
    lemma_part_of_three(s0, k1, v1, k2);
    assert(s0 + k1 + v1 + k2 =~= k1 + v1 + k2);
    let s1 = k1 + v1;
    lemma_part_of_three(s1, k2, v2, k3);
    lemma_two_more(s1 + k2, k1 + v1 + k2, v2, k3);
    let s2 = s1 + k2 + v2;
    lemma_part_of_three(s2, k3, v3, k4);
    lemma_two_more(s2 + k3, k1 + v1 + k2, v3, k4);
    lemma_two_more(s2 + k3, k2 + v2 + k3, v3, k4);
    let s3 = s2 + k3 + v3;
    lemma_part_of_three(s3, k4, v4, k5);
    lemma_two_more(s3 + k4, k1 + v1 + k2, v4, k5);
    lemma_two_more(s3 + k4, k2 + v2 + k3, v4, k5);
    lemma_two_more(s3 + k4, k3 + v3 + k4, v4, k5);
    let s4 = s3 + k4 + v4;
    lemma_part_of_three(s4, k5, v5, k6);
    lemma_two_more(s4 + k5, k1 + v1 + k2, v5, k6);
    lemma_two_more(s4 + k5, k2 + v2 + k3, v5, k6);
    lemma_two_more(s4 + k5, k3 + v3 + k4, v5, k6);
    lemma_two_more(s4 + k5, k4 + v4 + k5, v5, k6);
    let s5 = s4 + k5 + v5;
    lemma_part_of_three(s5, k6, v6, k7);
    lemma_two_more(s5 + k6, k1 + v1 + k2, v6, k7);
    lemma_two_more(s5 + k6, k2 + v2 + k3, v6, k7);
    lemma_two_more(s5 + k6, k3 + v3 + k4, v6, k7);
    lemma_two_more(s5 + k6, k4 + v4 + k5, v6, k7);
    lemma_two_more(s5 + k6, k5 + v5 + k6, v6, k7);
}

/// A text as it stands inside a JSON string.
pub fn json_escape(value: &str) -> (r: String)
    ensures
        r@ == escaped(value@),
{
    let text: Vec<char> = characters(value);
    let mut out: String = String::new();
    let mut i: usize = 0;
    assert(text@.skip(0) =~= text@);
    assert(out@ + escaped(text@.skip(0)) =~= escaped(text@));
    while i < text.len()
        invariant
            i <= text@.len(),
            out@ + escaped(text@.skip(i as int)) == escaped(text@),
        decreases text@.len() - i,
    {
        let c: char = text[i];
        let ghost before = out@;
        let ghost rest = text@.skip(i as int);
        if c == '\\' || c == '"' {
            out.push('\\');
        }
        out.push(c);
        i = i + 1;
        proof {
            assert(rest.drop_first() =~= text@.skip(i as int));
            assert(out@ =~= before + escaped_character(c));
            assert(out@ + escaped(text@.skip(i as int)) =~= before + escaped(rest));
        }
    }
    assert(escaped(text@.skip(i as int)) =~= Seq::empty());
    assert(out@ =~= escaped(text@));
    out
}

/// A JSON string, or `null`.
pub fn json_optional_string(value: Option<&str>) -> (r: String)
    ensures
        r@ == optional_string_json(
            match value {
                Some(s) => Some(s@),
                None => None,
            },
        ),
{
    let mut out: String = String::new();
    match value {
        Some(s) => {
            out.append("\"");
            out.append(json_escape(s).as_str());
            out.append("\"");
            assert(out@ =~= "\""@ + escaped(s@) + "\""@);
        },
        None => {
            out.append("null");
            assert(out@ =~= "null"@);
        },
    }
    out
}

/// A JSON number, or `null`.
pub fn json_optional_u32(value: Option<u32>) -> (r: String)
    ensures
        r@ == optional_number_json(
            match value {
                Some(n) => Some(n as nat),
                None => None,
            },
        ),
{
    let mut out: String = String::new();
    match value {
        Some(n) => {
            push_decimal(&mut out, n as u128);
            assert(out@ =~= decimal(n as nat));
        },
        None => {
            out.append("null");
            assert(out@ =~= "null"@);
        },
    }
    out
}

/// An address as a JSON string, or `null`.
pub fn json_optional_rva(value: Option<u64>) -> (r: String)
    ensures
        r@ == optional_rva_json(
            match value {
                Some(n) => Some(n as nat),
                None => None,
            },
        ),
{
    let mut out: String = String::new();
    match value {
        Some(n) => {
            out.append("\"0x");
            push_hexadecimal(&mut out, n);
            out.append("\"");
            assert(out@ =~= "\"0x"@ + hexadecimal(n as nat) + "\""@);
        },
        None => {
            out.append("null");
            assert(out@ =~= "null"@);
        },
    }
    out
}

/// Three bytes as a JSON string, or `null`.
pub fn json_optional_move(value: Option<[u8; 3]>) -> (r: String)
    ensures
        r@ == optional_move_json(value),
{
    let mut out: String = String::new();
    match value {
        Some(bytes) => {
            out.append("\"");
            push_hex_byte(&mut out, bytes[0]);
            out.append(" ");
            push_hex_byte(&mut out, bytes[1]);
            out.append(" ");
            push_hex_byte(&mut out, bytes[2]);
            out.append("\"");
            assert(out@ =~= optional_move_json(value));
        },
        None => {
            out.append("null");
            assert(out@ =~= "null"@);
        },
    }
    out
}

fn offset_rva(rva: usize, offset: Option<usize>) -> (r: Option<u64>)
    requires
        rva <= u32::MAX,
        offset matches Some(v) ==> v <= u32::MAX,
    ensures
        match r {
            Some(v) => rva_of(rva as nat, offset) == Some(v as nat),
            None => rva_of(rva as nat, offset) is None,
        },
{
    match offset {
        Some(v) => Some(rva as u64 + v as u64),
        None => None,
    }
}

fn analysis_text(rva: usize, report: AnalysisReport) -> (r: String)
    requires
        rva <= u32::MAX,
        report.patch_offset matches Some(v) ==> v <= u32::MAX,
        report.get_observer_state_offset matches Some(v) ==> v <= u32::MAX,
        report.original_jump_target_offset matches Some(v) ==> v <= u32::MAX,
    ensures
        r@ == analysis_json(rva as nat, report),
{
    let mut out: String = ",\n  \"autodirector_view_override\": {\n    \"status\": \"".to_owned();
    out.append(report.status.as_str());
    out.append("\",\n    \"matches\": ");
    push_decimal(&mut out, report.matches as u128);
    out.append(",\n    \"patch_rva\": ");
    out.append(json_optional_rva(offset_rva(rva, report.patch_offset)).as_str());
    out.append(",\n    \"view_setup_move\": ");
    out.append(json_optional_move(report.view_setup_argument_move).as_str());
    out.append(",\n    \"get_observer_state_rva\": ");
    out.append(json_optional_rva(offset_rva(rva, report.get_observer_state_offset)).as_str());
    out.append(",\n    \"normal_setup_jump_target_rva\": ");
    out.append(json_optional_rva(offset_rva(rva, report.original_jump_target_offset)).as_str());
    out.append("\n  }\n}");
    out
}

/// A finished report.
pub struct FileReport {
    /// The report as JSON.
    pub json: String,
    /// Whether the patch can be installed.
    pub compatible: bool,
}

/// Analyses a file and reports on it, or says what is wrong with the file.
pub fn signature_report(input: &str, build_id: Option<&str>, image: &[u8]) -> (r: Result<
    FileReport,
    &'static str,
>)
    ensures
        match text_section(image@) {
            Err(message) => r matches Err(error) && error@ == message,
            Ok((rva, data)) => {
                &&& r matches Ok(finished)
                &&& exists|report: AnalysisReport|
                    {
                        &&& #[trigger] report.describes(data)
                        &&& finished.compatible == (report.status == AnalysisStatus::Compatible)
                        &&& finished.json@ == file_json(
                            input@,
                            match build_id {
                                Some(s) => Some(s@),
                                None => None,
                            },
                            image@.len(),
                            timestamp(image@),
                            rva,
                            data.len(),
                        ) + analysis_json(rva, report)
                    }
            },
        },
{
    let text: TextSection = match text_section_from_file(image) {
        Ok(text) => text,
        Err(error) => return Err(error),
    };
    let report: AnalysisReport = analyze_autodirector_view_override(text.data);
    proof {
        text_section_is_part_of_the_file(image@);
        lemma_offsets_inside(text.data@, report);
    }
    let timestamp: Option<u32> = coff_timestamp(image);

    let mut out: String = "{\n  \"input\": \"".to_owned();
    out.append(json_escape(input).as_str());
    out.append("\",\n  \"build_id\": ");
    out.append(json_optional_string(build_id).as_str());
    out.append(",\n  \"file_size\": ");
    push_decimal(&mut out, image.len() as u128);
    out.append(",\n  \"coff_timestamp\": ");
    out.append(json_optional_u32(timestamp).as_str());
    out.append(",\n  \"text_rva\": \"0x");
    push_hexadecimal(&mut out, text.rva as u64);
    out.append("\",\n  \"text_size\": ");
    push_decimal(&mut out, text.data.len() as u128);
    let ghost file_part = out@;
    out.append(analysis_text(text.rva, report).as_str());
    proof {
        assert(file_part == file_json(
            input@,
            match build_id {
                Some(s) => Some(s@),
                None => None,
            },
            image@.len(),
            crate::image::timestamp(image@),
            text.rva as nat,
            text.data@.len(),
        ));
        assert(report.describes(text.data@));
    }
    Ok(FileReport { json: out, compatible: report.is_compatible() })
}

} // verus!
