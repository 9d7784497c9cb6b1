//! Laws of the text primitives: what case folding, numerals, padding, joining,
//! trimming, searching and ordering give, character by character.

use vstd::prelude::*;

use crate::text;

verus! {

// ── Case ────────────────────────────────────────────────────────────────────

/// Lower-casing moves the 26 capitals up by 32 and keeps every other character.
pub proof fn lowering_moves_capitals_alone(s: Seq<char>, i: int)
    requires
        0 <= i < s.len(),
    ensures
        text::lower(s).len() == s.len(),
        65 <= s[i] as int <= 90 ==> text::lower(s)[i] as int == s[i] as int + 32,
        !(65 <= s[i] as int <= 90) ==> text::lower(s)[i] == s[i],
{
}

/// Upper-casing moves the 26 small letters down by 32 and keeps every other
/// character.
pub proof fn raising_moves_small_letters_alone(s: Seq<char>, i: int)
    requires
        0 <= i < s.len(),
    ensures
        text::upper(s).len() == s.len(),
        97 <= s[i] as int <= 122 ==> text::upper(s)[i] as int == s[i] as int - 32,
        !(97 <= s[i] as int <= 122) ==> text::upper(s)[i] == s[i],
{
}

/// Case is folded once and for all, and neither way of folding tells apart what
/// the other does not.
pub proof fn folding_settles_the_case(a: Seq<char>, b: Seq<char>)
    ensures
        text::lower(text::lower(a)) == text::lower(a),
        text::upper(text::lower(a)) == text::upper(a),
        text::lower(text::upper(a)) == text::lower(a),
        text::lower(a) == text::lower(b) <==> text::upper(a) == text::upper(b),
{
    assert(text::lower(text::lower(a)) =~= text::lower(a));
    assert(text::upper(text::lower(a)) =~= text::upper(a));
    assert(text::lower(text::upper(a)) =~= text::lower(a));
    assert(text::upper(text::lower(b)) =~= text::upper(b));
    assert(text::lower(text::upper(b)) =~= text::lower(b));
}

// ── Numerals ────────────────────────────────────────────────────────────────

/// What a digit counts for.
pub open spec fn digit_value(c: char) -> int {
    if c as int <= 57 {
        c as int - 48
    } else {
        c as int - 87
    }
}

/// What a row of digits counts for.
pub open spec fn value_of(digits: Seq<char>, base: int) -> int
    decreases digits.len(),
{
    if digits.len() == 0 {
        0
    } else {
        value_of(digits.drop_last(), base) * base + digit_value(digits.last())
    }
}

/// A numeral is made of digits below its base, does not begin with a zero
/// unless it is one, and counts for the number that it was written for.
pub proof fn numerals_count_for_their_number(n: nat, base: nat)
    requires
        2 <= base <= 16,
    ensures
        text::numeral(n, base).len() > 0,
        value_of(text::numeral(n, base), base as int) == n,
        n > 0 ==> text::numeral(n, base)[0] != '0',
        forall|i: int|
            0 <= i < text::numeral(n, base).len() ==> 0 <= digit_value(
                #[trigger] text::numeral(n, base)[i],
            ) < base,
    decreases n,
{
    let s = text::numeral(n, base);
    if n < base {
        assert(s.drop_last() =~= Seq::empty());
        assert(value_of(s.drop_last(), base as int) == 0);
        assert(s.last() == text::digit(n));
        lemma_digit(n);
        assert(0 * (base as int) == 0) by (nonlinear_arith);
    } else {
        assert(n / base < n && n / base > 0) by (nonlinear_arith)
            requires
                base >= 2,
                n >= base,
        ;
        assert(n % base < base);
        let before = text::numeral(n / base, base);
        numerals_count_for_their_number(n / base, base);
        lemma_digit(n % base);
        assert(s.drop_last() =~= before);
        assert(s.last() == text::digit(n % base));
        assert((n / base) * base + n % base == n) by (nonlinear_arith)
            requires
                base >= 2,
        ;
        assert(s[0] == before[0]);
        assert forall|i: int| 0 <= i < s.len() implies 0 <= digit_value(#[trigger] s[i])
            < base by {
            if i < before.len() {
                assert(s[i] == before[i]);
            }
        }
    }
}

proof fn lemma_digit(d: nat)
    requires
        d < 16,
    ensures
        digit_value(text::digit(d)) == d,
        d > 0 ==> text::digit(d) != '0',
{
}

/// Numbers are told apart by their decimal numerals.
pub proof fn decimals_tell_numbers_apart(a: nat, b: nat)
    requires
        text::decimal(a) == text::decimal(b),
    ensures
        a == b,
{
    numerals_count_for_their_number(a, 10);
    numerals_count_for_their_number(b, 10);
}

/// Padding puts zeros in front and nothing else, as many as are missing.
pub proof fn padding_puts_zeros_in_front(s: Seq<char>, width: nat)
    ensures
        text::zero_padded(s, width).len() == (if s.len() < width {
            width
        } else {
            s.len()
        }),
        text::zero_padded(s, width).skip(text::zero_padded(s, width).len() - s.len()) == s,
        forall|i: int|
            0 <= i < text::zero_padded(s, width).len() - s.len() ==> #[trigger] text::zero_padded(
                s,
                width,
            )[i] == '0',
    decreases width - s.len(),
{
    let all = text::zero_padded(s, width);
    if s.len() < width {
        let longer = seq!['0'] + s;
        padding_puts_zeros_in_front(longer, width);
        assert(all.skip(all.len() - longer.len()) == longer);
        assert forall|i: int| 0 <= i < all.len() - s.len() implies #[trigger] all[i] == '0' by {
            if i == all.len() - longer.len() {
                assert(all[i] == all.skip(all.len() - longer.len())[0]);
            }
        }
        assert forall|i: int| 0 <= i < s.len() implies #[trigger] all.skip(all.len() - s.len())[i]
            == s[i] by {
            assert(all.skip(all.len() - longer.len())[i + 1] == longer[i + 1]);
        }
        assert(all.skip(all.len() - s.len()) =~= s);
    } else {
        assert(all.skip(0) =~= s);
    }
}

// ── Lists ───────────────────────────────────────────────────────────────────

/// A list is joined by its first text, the separator and the rest joined; one
/// text alone is left as it is.
pub proof fn joining_goes_from_the_front(first: Seq<char>, rest: Seq<Seq<char>>, sep: Seq<char>)
    ensures
        rest.len() == 0 ==> text::join(seq![first] + rest, sep) == first,
        rest.len() > 0 ==> text::join(seq![first] + rest, sep) == first + sep + text::join(
            rest,
            sep,
        ),
    decreases rest.len(),
{
    let all = seq![first] + rest;
    if rest.len() == 0 {
        assert(all[0] == first);
    } else {
        let shorter = rest.drop_last();
        assert(all.drop_last() =~= seq![first] + shorter);
        assert(all.last() == rest.last());
        joining_goes_from_the_front(first, shorter, sep);
        if rest.len() == 1 {
            assert(rest[0] == rest.last());
            assert(text::join(all, sep) =~= first + sep + text::join(rest, sep));
        } else {
            assert(text::join(all, sep) =~= first + sep + (text::join(shorter, sep) + sep
                + rest.last()));
        }
    }
}

// ── White space and searching ───────────────────────────────────────────────

/// Blanks, tabs and line ends are white space; what is printed in ASCII is not.
pub proof fn white_space_is_not_printed(c: char)
    ensures
        c == ' ' || c == '\t' || c == '\n' || c == '\r' ==> text::is_space(c),
        33 <= c as int <= 126 ==> !text::is_space(c),
{
}

/// Trimming keeps a stretch of the text. What it takes away at either end is
/// white space, and what it keeps neither begins nor ends with any.
pub proof fn trimming_takes_white_space_off_the_ends(s: Seq<char>) -> (at: int)
    ensures
        0 <= at,
        at + text::trim(s).len() <= s.len(),
        s.subrange(at, at + text::trim(s).len() as int) == text::trim(s),
        forall|i: int| 0 <= i < at ==> text::is_space(#[trigger] s[i]),
        forall|i: int| at + text::trim(s).len() <= i < s.len() ==> text::is_space(#[trigger] s[i]),
        text::trim(s).len() > 0 ==> !text::is_space(text::trim(s)[0]) && !text::is_space(
            text::trim(s).last(),
        ),
{
    text::trimming_twice_is_trimming_once(s);
    let head = text::trim_start(s);
    let at = lemma_trim_start_skips(s);
    lemma_trim_end_keeps(head);
    let kept = text::trim(s);
    assert(s.subrange(at, at + kept.len() as int) =~= kept) by {
        assert forall|i: int| 0 <= i < kept.len() implies s[at + i] == kept[i] by {
            assert(head[i] == s[at + i]);
        }
    }
    assert forall|i: int| at + kept.len() <= i < s.len() implies text::is_space(#[trigger] s[i]) by {
        assert(head[i - at] == s[i]);
    }
    at
}

/// Whether a text is white space and nothing else.
pub open spec fn is_blank(s: Seq<char>) -> bool {
    forall|i: int| 0 <= i < s.len() ==> text::is_space(#[trigger] s[i])
}

/// Nothing is left of a text by trimming exactly when it is blank.
pub proof fn blank_texts_trim_to_nothing(s: Seq<char>)
    ensures
        text::trim(s).len() == 0 <==> is_blank(s),
{
    let at = trimming_takes_white_space_off_the_ends(s);
    let kept = text::trim(s);
    if kept.len() > 0 {
        assert(s.subrange(at, at + kept.len() as int)[0] == s[at]);
        assert(!text::is_space(s[at]));
    }
}

proof fn lemma_trim_start_skips(s: Seq<char>) -> (at: int)
    ensures
        0 <= at <= s.len(),
        text::trim_start(s) == s.skip(at),
        forall|i: int| 0 <= i < at ==> text::is_space(#[trigger] s[i]),
    decreases s.len(),
{
    if s.len() > 0 && text::is_space(s[0]) {
        let rest = s.drop_first();
        let k = lemma_trim_start_skips(rest);
        assert(rest.skip(k) =~= s.skip(k + 1));
        assert forall|i: int| 0 <= i < k + 1 implies text::is_space(#[trigger] s[i]) by {
            if i > 0 {
                assert(rest[i - 1] == s[i]);
            }
        }
        k + 1
    } else {
        assert(s.skip(0) =~= s);
        0
    }
}

proof fn lemma_trim_end_keeps(s: Seq<char>)
    ensures
        text::trim_end(s).len() <= s.len(),
        text::trim_end(s) == s.take(text::trim_end(s).len() as int),
        forall|i: int| text::trim_end(s).len() <= i < s.len() ==> text::is_space(#[trigger] s[i]),
    decreases s.len(),
{
    if s.len() > 0 && text::is_space(s.last()) {
        let rest = s.drop_last();
        lemma_trim_end_keeps(rest);
        let n = text::trim_end(s).len() as int;
        assert(rest.take(n) =~= s.take(n));
        assert forall|i: int| n <= i < s.len() implies text::is_space(#[trigger] s[i]) by {
            if i < rest.len() {
                assert(rest[i] == s[i]);
            }
        }
    } else {
        assert(s.take(s.len() as int) =~= s);
    }
}

/// A text occurs in whatever is written around it, and nowhere else.
pub proof fn texts_occur_in_what_surrounds_them(
    before: Seq<char>,
    needle: Seq<char>,
    after: Seq<char>,
)
    ensures
        text::occurs_in(needle, before + needle + after),
        text::begins_with(needle + after, needle),
{
    let hay = before + needle + after;
    let at = before.len() as int;
    assert(hay.subrange(at, at + needle.len() as int) =~= needle);
    assert(text::stands_at(hay, needle, at));
    assert((needle + after).subrange(0, needle.len() as int) =~= needle);
}

/// What occurs in a text has the rest of the text around it; what a text begins
/// with has the rest behind it.
pub proof fn occurrences_have_the_rest_around_them(needle: Seq<char>, hay: Seq<char>)
    ensures
        text::occurs_in(needle, hay) ==> exists|before: Seq<char>, after: Seq<char>|
            hay == #[trigger] (before + needle + after),
        text::begins_with(hay, needle) ==> exists|after: Seq<char>|
            hay == #[trigger] (needle + after),
{
    if text::occurs_in(needle, hay) {
        let at = choose|at: int| text::stands_at(hay, needle, at);
        let before = hay.take(at);
        let after = hay.skip(at + needle.len() as int);
        assert(hay =~= before + needle + after) by {
            assert forall|i: int| 0 <= i < hay.len() implies hay[i] == (before + needle
                + after)[i] by {
                if at <= i < at + needle.len() {
                    assert(hay.subrange(at, at + needle.len() as int)[i - at] == hay[i]);
                }
            }
        }
    }
    if text::begins_with(hay, needle) {
        let after = hay.skip(needle.len() as int);
        assert(hay =~= needle + after) by {
            assert forall|i: int| 0 <= i < hay.len() implies hay[i] == (needle + after)[i] by {
                if i < needle.len() {
                    assert(hay.subrange(0, needle.len() as int)[i] == hay[i]);
                }
            }
        }
    }
}

// ── Order ───────────────────────────────────────────────────────────────────

/// Whether `a` and `b` agree up to place `k`, and there `a` ends or has the
/// smaller character.
pub open spec fn parts_at(a: Seq<char>, b: Seq<char>, k: int) -> bool {
    &&& 0 <= k <= a.len()
    &&& k < b.len()
    &&& forall|t: int| 0 <= t < k ==> a[t] == #[trigger] b[t]
    &&& k == a.len() || (a[k] as int) < (b[k] as int)
}

/// Whether `a` stands before `b` in the dictionary.
pub open spec fn precedes(a: Seq<char>, b: Seq<char>) -> bool {
    exists|k: int| parts_at(a, b, k)
}

/// Texts are ordered by the first place at which they differ.
pub proof fn texts_are_ordered_by_their_first_difference(a: Seq<char>, b: Seq<char>)
    ensures
        text::text_leq(a, b) <==> a == b || precedes(a, b),
        text::text_leq(b, a) <==> !precedes(a, b),
{
    lemma_order(a, b);
    lemma_order(b, a);
    text::text_order_is_total(a, b, a);
    if precedes(a, b) && text::text_leq(b, a) {
        let k = choose|k: int| parts_at(a, b, k);
        assert(a == b);
    }
}

proof fn lemma_order(a: Seq<char>, b: Seq<char>)
    ensures
        text::text_leq(a, b) <==> a == b || precedes(a, b),
    decreases a.len(),
{
    if a.len() == 0 {
        if b.len() == 0 {
            assert(a =~= b);
        } else {
            assert(parts_at(a, b, 0));
        }
    } else if b.len() == 0 {
    } else if a[0] != b[0] {
        if (a[0] as int) < (b[0] as int) {
            assert(parts_at(a, b, 0));
        }
        if precedes(a, b) {
            let k = choose|k: int| parts_at(a, b, k);
            if k > 0 {
                assert(a[0] == b[0]);
            }
        }
    } else {
        let x = a.drop_first();
        let y = b.drop_first();
        lemma_order(x, y);
        if x == y {
            assert(a =~= seq![a[0]] + x);
            assert(b =~= seq![b[0]] + y);
        }
        if precedes(x, y) {
            let k = choose|k: int| parts_at(x, y, k);
            assert forall|t: int| 0 <= t < k + 1 implies a[t] == #[trigger] b[t] by {
                if t > 0 {
                    assert(x[t - 1] == y[t - 1]);
                }
            }
            assert(parts_at(a, b, k + 1));
        }
        if precedes(a, b) {
            let k = choose|k: int| parts_at(a, b, k);
            assert forall|t: int| 0 <= t < k - 1 implies x[t] == #[trigger] y[t] by {
                assert(a[t + 1] == b[t + 1]);
            }
            assert(parts_at(x, y, k - 1));
        }
    }
}

} // verus!
