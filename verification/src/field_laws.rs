//! Laws of the text fields: what is typed is what is meant.

use vstd::prelude::*;

use crate::text;
use crate::text_edit;
use crate::text_laws;

verus! {

// ── One entry per line ──────────────────────────────────────────────────────

/// A text without a line break holds itself, without the blanks at its ends, or
/// nothing where it is blank.
pub proof fn one_line_is_one_entry(line: &str, r: Vec<String>)
    requires
        call_ensures(text_edit::read_entries, (line,), r),
        !line@.contains('\n'),
    ensures
        text_laws::is_blank(line@) ==> r@.len() == 0,
        !text_laws::is_blank(line@) ==> r@.len() == 1 && r@[0]@ == text::trim(line@),
{
    text_edit::lemma_single_line(line@);
    text_laws::blank_texts_trim_to_nothing(line@);
    reveal_with_fuel(text_edit::tidied, 2);
    assert(seq![line@].drop_last() =~= Seq::empty());
    let all = text::texts(r@);
    assert(all.len() == r@.len());
    if !text_laws::is_blank(line@) {
        assert(all[0] == r@[0]@);
    }
}

/// A line more is an entry more, behind the others and without the blanks at
/// its ends; a blank line is none.
pub proof fn every_line_is_an_entry(
    before: &str,
    line: Seq<char>,
    after: &str,
    fewer: Vec<String>,
    more: Vec<String>,
)
    requires
        call_ensures(text_edit::read_entries, (before,), fewer),
        call_ensures(text_edit::read_entries, (after,), more),
        after@ == before@.push('\n') + line,
        !line.contains('\n'),
    ensures
        text_laws::is_blank(line) ==> text::texts(more@) == text::texts(fewer@),
        !text_laws::is_blank(line) ==> text::texts(more@) == text::texts(fewer@).push(
            text::trim(line),
        ),
{
    text_edit::lemma_line_appended(before@, line);
    text_laws::blank_texts_trim_to_nothing(line);
    let lines = text_edit::split_lines(before@);
    assert(lines.push(line).drop_last() =~= lines);
}

/// A list of entries that are not blank, hold no line break and have no blanks
/// at their ends is read as it was shown.
pub proof fn lists_are_read_as_shown(
    items: &[String],
    shown: String,
    field: &str,
    r: Vec<String>,
)
    requires
        call_ensures(text_edit::show_entries, (items,), shown),
        field@ == shown@,
        call_ensures(text_edit::read_entries, (field,), r),
        forall|i: int|
            0 <= i < items@.len() ==> (#[trigger] items@[i])@.len() > 0 && text::trim(items@[i]@)
                == items@[i]@ && !items@[i]@.contains('\n'),
    ensures
        text::texts(r@) == text::texts(items@),
{
    let all = text::texts(items@);
    assert forall|i: int| 0 <= i < all.len() implies text_edit::is_entry(#[trigger] all[i]) by {
        assert(all[i] == items@[i]@);
    }
    text_edit::shown_entries_are_read_back(all);
}

/// One entry is shown as it is, and every further one on a line of its own.
pub proof fn entries_are_shown_on_lines(
    fewer: &[String],
    more: &[String],
    short: String,
    long: String,
    last: String,
)
    requires
        call_ensures(text_edit::show_entries, (fewer,), short),
        call_ensures(text_edit::show_entries, (more,), long),
        more@ == fewer@.push(last),
    ensures
        fewer@.len() == 0 ==> long@ == last@,
        fewer@.len() > 0 ==> long@ == short@ + "\n"@ + last@,
{
    let a = text::texts(fewer@);
    let b = text::texts(more@);
    assert(b =~= a.push(last@));
    assert(b.drop_last() =~= a);
    if fewer@.len() == 0 {
        assert(b.len() == 1);
    }
}

// ── Masks ───────────────────────────────────────────────────────────────────

/// Whether a character is a hexadecimal digit.
pub open spec fn is_digit(c: char) -> bool {
    '0' <= c <= '9' || 'a' <= c <= 'f' || 'A' <= c <= 'F'
}

/// What a hexadecimal digit counts for.
pub open spec fn worth(c: char) -> int {
    if c <= '9' {
        c as int - '0' as int
    } else if c <= 'F' {
        10 + c as int - 'A' as int
    } else {
        10 + c as int - 'a' as int
    }
}

/// Whether a text is made of hexadecimal digits.
pub open spec fn is_hex(s: Seq<char>) -> bool {
    s.len() > 0 && forall|i: int| 0 <= i < s.len() ==> is_digit(#[trigger] s[i])
}

proof fn lemma_digit(c: char)
    ensures
        is_digit(c) <==> text_edit::hex_digit(c) is Some,
        is_digit(c) ==> text_edit::hex_digit(c)->0 == worth(c),
{
}

proof fn lemma_hex_is_plain(s: Seq<char>)
    requires
        is_hex(s),
    ensures
        text::trim(s) == s,
        text_edit::without_marks(s) == s,
        text_edit::without_plus(s) == s,
{
    assert(is_digit(s[0]));
    assert(is_digit(s[s.len() - 1]));
    assert(!text::is_space(s[0]));
    assert(!text::is_space(s.last()));
    if s.len() > 1 {
        assert(is_digit(s[1]));
    }
}

/// A single digit is read as its value, in either case.
pub proof fn digits_are_read(field: &str, c: char, r: Option<u64>)
    requires
        call_ensures(text_edit::read_mask, (field,), r),
        field@ == seq![c],
        is_digit(c),
    ensures
        r is Some,
        r->0 == worth(c),
{
    lemma_hex_is_plain(field@);
    lemma_digit(c);
}

/// A digit more counts sixteen times what stood before and itself, as long as
/// that is a mask at all.
pub proof fn further_digits_count_sixteenfold(
    shorter: &str,
    longer: &str,
    c: char,
    before: Option<u64>,
    after: Option<u64>,
)
    requires
        call_ensures(text_edit::read_mask, (shorter,), before),
        call_ensures(text_edit::read_mask, (longer,), after),
        is_hex(shorter@),
        is_digit(c),
        longer@ == shorter@.push(c),
    ensures
        before is None ==> after is None,
        before is Some && 16 * before->0 + worth(c) > u64::MAX ==> after is None,
        before is Some && 16 * before->0 + worth(c) <= u64::MAX ==> after is Some && after->0
            == 16 * before->0 + worth(c),
{
    let s = shorter@;
    let t = longer@;
    assert forall|i: int| 0 <= i < t.len() implies is_digit(#[trigger] t[i]) by {
        if i < s.len() {
            assert(t[i] == s[i]);
        }
    }
    lemma_hex_is_plain(s);
    lemma_hex_is_plain(t);
    lemma_digit(c);
    assert(t.drop_last() =~= s);
    lemma_hex_has_a_value(s);
}

proof fn lemma_hex_has_a_value(s: Seq<char>)
    requires
        is_hex(s),
    ensures
        text_edit::hex_value(s) is Some,
    decreases s.len(),
{
    assert(is_digit(s[s.len() - 1]));
    lemma_digit(s[s.len() - 1]);
    if s.len() > 1 {
        let shorter = s.drop_last();
        assert forall|i: int| 0 <= i < shorter.len() implies is_digit(#[trigger] shorter[i]) by {
            assert(shorter[i] == s[i]);
        }
        lemma_hex_has_a_value(shorter);
    }
}

/// A mark `0x` in front, a plus sign, and blanks at the ends change nothing.
pub proof fn marks_and_blanks_do_not_count(
    bare: &str,
    marked: &str,
    signed: &str,
    padded: &str,
    plain: Option<u64>,
    with_mark: Option<u64>,
    with_sign: Option<u64>,
    with_blanks: Option<u64>,
)
    requires
        call_ensures(text_edit::read_mask, (bare,), plain),
        call_ensures(text_edit::read_mask, (marked,), with_mark),
        call_ensures(text_edit::read_mask, (signed,), with_sign),
        call_ensures(text_edit::read_mask, (padded,), with_blanks),
        is_hex(bare@),
        marked@ == "0x"@ + bare@,
        signed@ == "+"@ + bare@,
        text::trim(padded@) == bare@,
    ensures
        with_mark == plain,
        with_sign == plain,
        with_blanks == plain,
{
    reveal_strlit("0x");
    reveal_strlit("+");
    let s = bare@;
    lemma_hex_is_plain(s);
    assert(is_digit(s[s.len() - 1]));
    let m = marked@;
    assert(m[0] == '0' && m[1] == 'x' && m.last() == s[s.len() - 1]);
    assert(!text::is_space(m[0]) && !text::is_space(m.last()));
    assert(text::trim(m) == m);
    assert(m.skip(2) =~= s);
    let p = signed@;
    assert(p[0] == '+' && p.last() == s[s.len() - 1]);
    assert(!text::is_space(p[0]) && !text::is_space(p.last()));
    assert(text::trim(p) == p);
    assert(p.skip(1) =~= s);
    assert(text_edit::without_marks(p) == p);
}

/// A text that holds anything but digits behind marks and sign is no mask, and
/// neither is an empty one.
pub proof fn other_texts_are_no_masks(field: &str, r: Option<u64>, i: int)
    requires
        call_ensures(text_edit::read_mask, (field,), r),
        ({
            let rest = text_edit::without_plus(text_edit::without_marks(text::trim(field@)));
            ||| rest.len() == 0
            ||| 0 <= i < rest.len() && !is_digit(rest[i])
        }),
    ensures
        r is None,
{
    let rest = text_edit::without_plus(text_edit::without_marks(text::trim(field@)));
    if rest.len() > 0 {
        lemma_digit(rest[i]);
        lemma_no_value(rest, i);
    }
}

proof fn lemma_no_value(s: Seq<char>, i: int)
    requires
        0 <= i < s.len(),
        text_edit::hex_digit(s[i]) is None,
    ensures
        text_edit::hex_value(s) is None,
    decreases s.len(),
{
    if i < s.len() - 1 {
        lemma_no_value(s.drop_last(), i);
    }
}

/// A mask is read as it was shown.
pub proof fn masks_are_read_as_shown(mask: u64, shown: String, field: &str, r: Option<u64>)
    requires
        call_ensures(text_edit::show_mask, (mask,), shown),
        field@ == shown@,
        call_ensures(text_edit::read_mask, (field,), r),
    ensures
        shown@ == "0x"@ + text::numeral(mask as nat, 16),
        r == Some(mask),
{
    text_edit::shown_masks_are_read_back(mask);
}

/// What is typed takes effect when it is a mask, and leaves the mask alone when
/// it is not.
pub proof fn typing_takes_effect_when_it_can(mask: &mut u64, typed: &str, r: Option<u64>)
    requires
        call_ensures(text_edit::type_mask, (mask, typed), ()),
        call_ensures(text_edit::read_mask, (typed,), r),
    ensures
        r is Some ==> *final(mask) == r->0,
        r is None ==> *final(mask) == *old(mask),
{
}

} // verus!
