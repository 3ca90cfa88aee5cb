//! The machine's region as a hint for a regional list.
use vstd::prelude::*;
use crate::text;

verus! {

/// Whether `code` is a region code: two ASCII letters.
pub open spec fn two_letters(code: Seq<char>) -> bool {
    code.len() == 2 && text::ascii_letter(code[0]) && text::ascii_letter(code[1])
}

/// The region code that `raw` holds, in lower case, if it holds one and
/// nothing else but white space round it.
pub open spec fn region_code(raw: Seq<char>) -> Option<Seq<char>> {
    if two_letters(text::trim(raw)) {
        Some(text::lower_text(text::trim(raw)))
    } else {
        None
    }
}

/// The region code that `raw` holds, in lower case, if it holds one and
/// nothing else but white space round it.
pub fn normalize_region_code(raw: &str) -> (code: Option<String>)
    ensures
        match code {
            Some(c) => region_code(raw@) == Some(c@),
            None => region_code(raw@) is None,
        },
{
    let chars = text::chars_of(raw);
    let trimmed = text::trim_chars(&chars);
    if trimmed.len() == 2 && text::is_ascii_letter(trimmed[0]) && text::is_ascii_letter(
        trimmed[1],
    ) {
        let lower = text::to_lower(trimmed);
        Some(text::string_of(&lower))
    } else {
        None
    }
}

/// The region itself, if there is a list for it.
pub fn suggested_list(region: Option<&str>, available: &[String]) -> (list: Option<String>)
    ensures
        match (region, list) {
            (None, _) => list is None,
            (Some(r), Some(l)) => l@ == r@ && text::texts(available@).contains(r@),
            (Some(r), None) => !text::texts(available@).contains(r@),
        },
{
    let wanted = match region {
        Some(wanted) => wanted,
        None => {
            return None;
        },
    };
    let mut i: usize = 0;
    while i < available.len()
        invariant
            i <= available@.len(),
            region == Some(wanted),
            forall|j: int| 0 <= j < i ==> (#[trigger] available@[j])@ != wanted@,
        decreases available@.len() - i,
    {
        if text::same_text(available[i].as_str(), wanted) {
            assert(text::texts(available@)[i as int] == wanted@);
            let list = available[i].clone();
            return Some(list);
        }
        i = i + 1;
    }
    proof {
        if text::texts(available@).contains(wanted@) {
            let j = choose|j: int|
                0 <= j < text::texts(available@).len() && text::texts(available@)[j] == wanted@;
            assert(available@[j]@ == wanted@);
        }
    }
    None
}

/// The machine's region, given what the system has stored for it; none where
/// the system stores nothing.
pub fn detect_system_region(stored: Option<&str>) -> (region: Option<String>)
    ensures
        match (stored, region) {
            (None, _) => region is None,
            (Some(raw), Some(r)) => region_code(raw@) == Some(r@),
            (Some(raw), None) => region_code(raw@) is None,
        },
{
    match stored {
        Some(raw) => normalize_region_code(raw),
        None => None,
    }
}

/// A code in its normal form is its own normal form.
pub proof fn law_a_region_code_is_stable(raw: Seq<char>)
    requires
        region_code(raw) is Some,
    ensures
        region_code(region_code(raw)->0) == region_code(raw),
{
    let code = region_code(raw)->0;
    assert(text::trim(code) =~= code) by {
        assert(text::ascii_letter(code[0]) && text::ascii_letter(code[1]));
        assert(text::trim_start(code) == code);
        assert(text::trim_end(code) == code);
    }
    assert(text::lower_text(code) =~= code);
}

/// A text holds a region code if and only if there are two letters in it, with
/// nothing but white space before and behind them; the code is these letters as
/// small ones.
pub proof fn law_where_a_region_code_is_found(
    before: Seq<char>,
    body: Seq<char>,
    after: Seq<char>,
)
    requires
        forall|i: int| 0 <= i < before.len() ==> text::white_space(#[trigger] before[i]),
        forall|i: int| 0 <= i < after.len() ==> text::white_space(#[trigger] after[i]),
        body.len() > 0 ==> !text::white_space(body[0]) && !text::white_space(body.last()),
    ensures
        region_code(before + body + after) is Some <==> body.len() == 2 && forall|i: int|
            0 <= i < body.len() ==> ('a' <= #[trigger] body[i] && body[i] <= 'z') || ('A' <= body[i]
                && body[i] <= 'Z'),
        region_code(before + body + after) matches Some(code) ==> code.len() == 2 && forall|i: int|
            0 <= i < 2 ==> 'a' <= #[trigger] code[i] && code[i] <= 'z' && (code[i] == body[i]
                || code[i] as int == body[i] as int + 32),
{
    text::law_trimming_takes_white_space_alone(before, body, after);
    if body.len() == 2 && forall|i: int|
        0 <= i < body.len() ==> ('a' <= #[trigger] body[i] && body[i] <= 'z') || ('A' <= body[i]
            && body[i] <= 'Z') {
        assert(text::ascii_letter(body[0]) && text::ascii_letter(body[1]));
    }
    if two_letters(body) {
        text::law_case_changes_letters_alone(body, 0);
        text::law_case_changes_letters_alone(body, 1);
        let code = text::lower_text(body);
        assert forall|i: int| 0 <= i < 2 implies 'a' <= #[trigger] code[i] && code[i] <= 'z' && (
        code[i] == body[i] || code[i] as int == body[i] as int + 32) by {
            assert(i == 0 || i == 1);
        }
    }
}

} // verus!
