//! Text fields that stand for other values: a list with one entry per line,
//! and a processor mask in hexadecimal.

use vstd::prelude::*;

use crate::text;

verus! {

// ── One entry per line ──────────────────────────────────────────────────────

/// The lines of a text; there is always at least one.
pub open spec fn split_lines(s: Seq<char>) -> Seq<Seq<char>>
    decreases s.len(),
{
    if s.len() == 0 {
        seq![Seq::empty()]
    } else {
        let before = split_lines(s.drop_last());
        if s.last() == '\n' {
            before.push(Seq::empty())
        } else {
            before.drop_last().push(before.last().push(s.last()))
        }
    }
}

/// The lines without the white space around them, and without those that are
/// empty then.
pub open spec fn tidied(lines: Seq<Seq<char>>) -> Seq<Seq<char>>
    decreases lines.len(),
{
    if lines.len() == 0 {
        Seq::empty()
    } else {
        let before = tidied(lines.drop_last());
        let entry = text::trim(lines.last());
        if entry.len() == 0 {
            before
        } else {
            before.push(entry)
        }
    }
}

/// The entries that a text field holds.
pub open spec fn entries(s: Seq<char>) -> Seq<Seq<char>> {
    tidied(split_lines(s))
}

/// The text field that shows a list.
pub fn show_entries(items: &[String]) -> (r: String)
    ensures
        r@ == text::join(text::texts(items@), "\n"@),
{
    text::join_texts(items, "\n")
}

/// Every text has a line.
pub proof fn lemma_some_line(s: Seq<char>)
    ensures
        split_lines(s).len() >= 1,
    decreases s.len(),
{
    if s.len() > 0 {
        lemma_some_line(s.drop_last());
    }
}

/// Adds a line to the entries.
fn add_entry(out: &mut Vec<String>, line: &Vec<char>)
    ensures
        text::texts(final(out)@) == (if text::trim(line@).len() == 0 {
            text::texts(old(out)@)
        } else {
            text::texts(old(out)@).push(text::trim(line@))
        }),
{
    let raw = text::from_chars(line.as_slice());
    let entry = text::trimmed(raw.as_str());
    if entry.as_str().unicode_len() > 0 {
        let ghost before = text::texts(out@);
        out.push(entry);
        assert(text::texts(out@) =~= before.push(entry@));
    }
}

/// The list that a text field holds.
pub fn read_entries(s: &str) -> (r: Vec<String>)
    ensures
        text::texts(r@) == entries(s@),
{
    let cs = text::to_chars(s);
    let mut out: Vec<String> = Vec::new();
    let mut line: Vec<char> = Vec::new();
    proof {
        assert(cs@.take(0) =~= Seq::empty());
        assert(text::texts(out@) =~= tidied(split_lines(cs@.take(0)).drop_last())) by {
            assert(split_lines(cs@.take(0)).drop_last() =~= Seq::empty());
        }
    }
    for i in 0..cs.len()
        invariant
            text::texts(out@) == tidied(split_lines(cs@.take(i as int)).drop_last()),
            line@ == split_lines(cs@.take(i as int)).last(),
    {
        let ghost lines = split_lines(cs@.take(i as int));
        let ghost next = split_lines(cs@.take(i + 1));
        proof {
            lemma_some_line(cs@.take(i as int));
            assert(cs@.take(i + 1).drop_last() =~= cs@.take(i as int));
        }
        if cs[i] == '\n' {
            add_entry(&mut out, &line);
            line = Vec::new();
            assert(next.drop_last() =~= lines);
            assert(line@ =~= next.last());
        } else {
            line.push(cs[i]);
            assert(next.drop_last() =~= lines.drop_last());
        }
    }
    proof {
        assert(cs@.take(cs@.len() as int) =~= s@);
        lemma_some_line(s@);
    }
    add_entry(&mut out, &line);
    out
}

/// Whether a text is one tidy entry: no line break, no white space around it,
/// not empty.
pub open spec fn is_entry(s: Seq<char>) -> bool {
    s.len() > 0 && text::trim(s) == s && !s.contains('\n')
}

/// A line that is appended behind a line break is the last of the lines.
pub proof fn lemma_line_appended(a: Seq<char>, b: Seq<char>)
    requires
        !b.contains('\n'),
    ensures
        split_lines(a.push('\n') + b) == split_lines(a).push(b),
    decreases b.len(),
{
    if b.len() == 0 {
        assert(a.push('\n') + b =~= a.push('\n'));
        assert(a.push('\n').drop_last() =~= a);
        assert(b =~= Seq::empty());
    } else {
        let shorter = b.drop_last();
        assert(!shorter.contains('\n')) by {
            if shorter.contains('\n') {
                let k = shorter.index_of('\n');
                assert(b[k] == '\n');
            }
        }
        lemma_line_appended(a, shorter);
        let whole = a.push('\n') + b;
        assert(whole.drop_last() =~= a.push('\n') + shorter);
        assert(b.contains(b.last()));
        assert(whole.last() == b.last());
        let before = split_lines(a).push(shorter);
        assert(before.drop_last() =~= split_lines(a));
        assert(shorter.push(b.last()) =~= b);
        assert(split_lines(whole) =~= split_lines(a).push(b));
    }
}

/// A text without line breaks is its only line.
pub proof fn lemma_single_line(b: Seq<char>)
    requires
        !b.contains('\n'),
    ensures
        split_lines(b) == seq![b],
    decreases b.len(),
{
    if b.len() == 0 {
        assert(b =~= Seq::empty());
    } else {
        let shorter = b.drop_last();
        assert(!shorter.contains('\n')) by {
            if shorter.contains('\n') {
                let k = shorter.index_of('\n');
                assert(b[k] == '\n');
            }
        }
        lemma_single_line(shorter);
        assert(b.contains(b.last()));
        assert(shorter.push(b.last()) =~= b);
        assert(split_lines(b) =~= seq![b]);
    }
}

/// A list of tidy entries survives being shown and read back.
pub proof fn shown_entries_are_read_back(items: Seq<Seq<char>>)
    requires
        forall|i: int| 0 <= i < items.len() ==> is_entry(#[trigger] items[i]),
    ensures
        entries(text::join(items, "\n"@)) == items,
    decreases items.len(),
{
    reveal_strlit("\n");
    reveal_with_fuel(tidied, 2);
    assert("\n"@ =~= seq!['\n']);
    if items.len() == 0 {
        let blank: Seq<char> = Seq::empty();
        assert(text::trim(blank) =~= blank);
        assert(split_lines(blank).drop_last() =~= Seq::empty());
        assert(tidied(split_lines(blank)) =~= Seq::empty());
        assert(items =~= Seq::empty());
    } else {
        let rest = items.drop_last();
        let last = items.last();
        assert(is_entry(items[items.len() - 1]));
        assert forall|i: int| 0 <= i < rest.len() implies is_entry(#[trigger] rest[i]) by {
            assert(is_entry(items[i]));
        }
        shown_entries_are_read_back(rest);
        if items.len() == 1 {
            lemma_single_line(last);
            assert(seq![last].drop_last() =~= Seq::empty());
            assert(entries(last) =~= items);
        } else {
            let head = text::join(rest, "\n"@);
            assert(text::join(items, "\n"@) =~= head.push('\n') + last);
            lemma_line_appended(head, last);
            assert(split_lines(head).push(last).drop_last() =~= split_lines(head));
            assert(entries(text::join(items, "\n"@)) =~= items);
        }
    }
}

proof fn lemma_trim_keeps_chars(s: Seq<char>, c: char)
    ensures
        text::trim_start(s).contains(c) ==> s.contains(c),
        text::trim_end(s).contains(c) ==> s.contains(c),
    decreases s.len(),
{
    if s.len() > 0 {
        lemma_trim_keeps_chars(s.drop_first(), c);
        lemma_trim_keeps_chars(s.drop_last(), c);
        if s.drop_first().contains(c) {
            let k = s.drop_first().index_of(c);
            assert(s[k + 1] == c);
        }
        if s.drop_last().contains(c) {
            let k = s.drop_last().index_of(c);
            assert(s[k] == c);
        }
    }
}

proof fn lemma_lines_have_no_break(s: Seq<char>)
    ensures
        forall|i: int|
            0 <= i < split_lines(s).len() ==> !(#[trigger] split_lines(s)[i]).contains('\n'),
    decreases s.len(),
{
    if s.len() > 0 {
        let before = split_lines(s.drop_last());
        lemma_lines_have_no_break(s.drop_last());
        lemma_some_line(s.drop_last());
        let lines = split_lines(s);
        assert forall|i: int| 0 <= i < lines.len() implies !(#[trigger] lines[i]).contains(
            '\n',
        ) by {
            if s.last() == '\n' {
                if i < before.len() {
                    assert(lines[i] == before[i]);
                }
            } else if i < before.len() - 1 {
                assert(lines[i] == before[i]);
            } else {
                assert(lines[i] == before.last().push(s.last()));
                assert(!before[before.len() - 1].contains('\n'));
                if lines[i].contains('\n') {
                    let k = lines[i].index_of('\n');
                    if k < before.last().len() {
                        assert(before.last()[k] == '\n');
                    }
                }
            }
        }
    }
}

proof fn lemma_tidied_are_entries(lines: Seq<Seq<char>>)
    requires
        forall|i: int| 0 <= i < lines.len() ==> !(#[trigger] lines[i]).contains('\n'),
    ensures
        forall|i: int| 0 <= i < tidied(lines).len() ==> is_entry(#[trigger] tidied(lines)[i]),
    decreases lines.len(),
{
    if lines.len() > 0 {
        let shorter = lines.drop_last();
        assert forall|i: int| 0 <= i < shorter.len() implies !(#[trigger] shorter[i]).contains(
            '\n',
        ) by {
            assert(!lines[i].contains('\n'));
        }
        lemma_tidied_are_entries(shorter);
        let last = lines.last();
        assert(!lines[lines.len() - 1].contains('\n'));
        text::trimming_twice_is_trimming_once(last);
        lemma_trim_keeps_chars(last, '\n');
        lemma_trim_keeps_chars(text::trim_start(last), '\n');
        let before = tidied(shorter);
        let all = tidied(lines);
        assert forall|i: int| 0 <= i < all.len() implies is_entry(#[trigger] all[i]) by {
            if i < before.len() {
                assert(all[i] == before[i]);
            }
        }
    }
}

/// What was read from a text field is tidy, so showing it and reading it again
/// changes nothing.
pub proof fn reading_settles_the_text(s: Seq<char>)
    ensures
        forall|i: int| 0 <= i < entries(s).len() ==> is_entry(#[trigger] entries(s)[i]),
        entries(text::join(entries(s), "\n"@)) == entries(s),
{
    lemma_lines_have_no_break(s);
    lemma_tidied_are_entries(split_lines(s));
    shown_entries_are_read_back(entries(s));
}

// ── Masks ───────────────────────────────────────────────────────────────────

/// The value of a hexadecimal digit.
pub open spec fn hex_digit(c: char) -> Option<nat> {
    if '0' <= c && c <= '9' {
        Some((c as nat - 48) as nat)
    } else if 'a' <= c && c <= 'f' {
        Some((c as nat - 87) as nat)
    } else if 'A' <= c && c <= 'F' {
        Some((c as nat - 55) as nat)
    } else {
        None
    }
}

/// The number that a row of hexadecimal digits stands for.
pub open spec fn hex_value(s: Seq<char>) -> Option<nat>
    decreases s.len(),
{
    if s.len() == 0 {
        None
    } else if s.len() == 1 {
        hex_digit(s[0])
    } else {
        match (hex_value(s.drop_last()), hex_digit(s.last())) {
            (Some(v), Some(d)) => Some(16 * v + d),
            _ => None,
        }
    }
}

/// `s` without the marks `0x` in front.
pub open spec fn without_marks(s: Seq<char>) -> Seq<char>
    decreases s.len(),
{
    if s.len() >= 2 && s[0] == '0' && s[1] == 'x' {
        without_marks(s.skip(2))
    } else {
        s
    }
}

/// `s` without one plus sign in front of digits.
pub open spec fn without_plus(s: Seq<char>) -> Seq<char> {
    if s.len() > 1 && s[0] == '+' {
        s.skip(1)
    } else {
        s
    }
}

/// The mask that a text field holds, if it holds one.
pub open spec fn typed_mask(s: Seq<char>) -> Option<nat> {
    match hex_value(without_plus(without_marks(text::trim(s)))) {
        Some(v) => if v <= u64::MAX {
            Some(v)
        } else {
            None
        },
        None => None,
    }
}

/// The text field that shows a mask.
pub open spec fn shown_mask(mask: u64) -> Seq<char> {
    "0x"@ + text::numeral(mask as nat, 16)
}

/// Writes a mask into a text field.
pub fn show_mask(mask: u64) -> (r: String)
    ensures
        r@ == shown_mask(mask),
{
    let mut out = "0x".to_owned();
    let digits = text::format_in_base(mask, 16);
    out.append(digits.as_str());
    out
}

fn read_hex_digit(c: char) -> (r: Option<u64>)
    ensures
        match r {
            Some(d) => hex_digit(c) == Some(d as nat) && d < 16,
            None => hex_digit(c) is None,
        },
{
    let code: u32 = c as u32;
    if '0' <= c && c <= '9' {
        Some((code - 48) as u64)
    } else if 'a' <= c && c <= 'f' {
        Some((code - 87) as u64)
    } else if 'A' <= c && c <= 'F' {
        Some((code - 55) as u64)
    } else {
        None
    }
}

proof fn lemma_hex_value_needs_prefix(s: Seq<char>, n: int)
    requires
        1 <= n <= s.len(),
    ensures
        hex_value(s) is Some ==> hex_value(s.take(n)) is Some && hex_value(s.take(n))->0
            <= hex_value(s)->0,
    decreases s.len() - n,
{
    if n < s.len() {
        lemma_hex_value_needs_prefix(s, n + 1);
        assert(s.take(n + 1).drop_last() =~= s.take(n));
    } else {
        assert(s.take(n) =~= s);
    }
}

/// The number that a row of hexadecimal digits stands for, if it fits.
fn read_hex(cs: &Vec<char>, from: usize) -> (r: Option<u64>)
    requires
        from <= cs@.len(),
    ensures
        match r {
            Some(v) => hex_value(cs@.skip(from as int)) == Some(v as nat),
            None => match hex_value(cs@.skip(from as int)) {
                Some(v) => v > u64::MAX,
                None => true,
            },
        },
{
    let ghost s = cs@.skip(from as int);
    if from == cs.len() {
        return None;
    }
    let mut value: u64 = match read_hex_digit(cs[from]) {
        Some(d) => d,
        None => {
            proof {
                lemma_hex_value_needs_prefix(s, 1);
                assert(s.take(1)[0] == cs@[from as int]);
            }
            return None;
        },
    };
    assert(s.take(1)[0] == cs@[from as int]);
    for i in from + 1..cs.len()
        invariant
            from < cs@.len(),
            s == cs@.skip(from as int),
            hex_value(s.take(i - from)) == Some(value as nat),
    {
        let ghost longer = s.take(i - from + 1);
        proof {
            assert(longer.drop_last() =~= s.take(i - from));
            assert(longer.last() == cs@[i as int]);
            lemma_hex_value_needs_prefix(s, i - from + 1);
        }
        match read_hex_digit(cs[i]) {
            Some(d) => {
                if value > 0x0fff_ffff_ffff_ffff {
                    return None;
                }
                value = 16 * value + d;
            },
            None => {
                return None;
            },
        }
    }
    assert(s.take(s.len() as int) =~= s);
    Some(value)
}

/// Reads a mask from a text field; `None` where it holds none.
pub fn read_mask(s: &str) -> (r: Option<u64>)
    ensures
        match r {
            Some(v) => typed_mask(s@) == Some(v as nat),
            None => typed_mask(s@) is None,
        },
{
    let trimmed = text::trimmed(s);
    let cs = text::to_chars(trimmed.as_str());
    let mut from: usize = 0;
    assert(cs@.skip(0) =~= cs@);
    while cs.len() - from > 1 && cs[from] == '0' && cs[from + 1] == 'x'
        invariant
            from <= cs@.len(),
            without_marks(cs@.skip(from as int)) == without_marks(cs@),
        decreases cs@.len() - from,
    {
        assert(cs@.skip(from as int).skip(2) =~= cs@.skip(from + 2));
        from = from + 2;
    }
    let ghost rest = cs@.skip(from as int);
    assert(without_marks(cs@) == rest);
    if cs.len() - from > 1 && cs[from] == '+' {
        assert(rest.skip(1) =~= cs@.skip(from + 1));
        from = from + 1;
    }
    read_hex(&cs, from)
}

/// Takes over what was typed into the text field of a mask; a text that is no
/// mask leaves it as it was.
pub fn type_mask(mask: &mut u64, typed: &str)
    ensures
        *final(mask) == (match typed_mask(typed@) {
            Some(v) => v as u64,
            None => *old(mask),
        }),
{
    if let Some(v) = read_mask(typed) {
        *mask = v;
    }
}

proof fn lemma_numeral_is_hex(n: nat)
    ensures
        text::numeral(n, 16).len() >= 1,
        hex_value(text::numeral(n, 16)) == Some(n),
        forall|k: int|
            0 <= k < text::numeral(n, 16).len() ==> hex_digit(
                #[trigger] text::numeral(n, 16)[k],
            ) is Some,
    decreases n,
{
    let s = text::numeral(n, 16);
    if n >= 16 {
        lemma_numeral_is_hex(n / 16);
        let before = text::numeral(n / 16, 16);
        assert(s == before.push(text::digit(n % 16)));
        assert(s.drop_last() =~= before);
        assert(hex_digit(text::digit(n % 16)) == Some(n % 16));
        assert forall|k: int| 0 <= k < s.len() implies hex_digit(#[trigger] s[k]) is Some by {
            if k < before.len() {
                assert(s[k] == before[k]);
            }
        }
    } else {
        assert(hex_digit(text::digit(n)) == Some(n));
        assert(s =~= seq![text::digit(n)]);
    }
}

/// A mask survives being shown and read back.
pub proof fn shown_masks_are_read_back(mask: u64)
    ensures
        typed_mask(shown_mask(mask)) == Some(mask as nat),
{
    reveal_strlit("0x");
    let digits = text::numeral(mask as nat, 16);
    let s = shown_mask(mask);
    lemma_numeral_is_hex(mask as nat);
    assert(s[0] == '0' && s[1] == 'x');
    assert(s.last() == digits[digits.len() - 1]);
    assert(hex_digit(digits[digits.len() - 1]) is Some);
    assert(!text::is_space(s[0]));
    assert(!text::is_space(s.last()));
    assert(text::trim(s) == s);
    assert(s.skip(2) =~= digits);
    assert(hex_digit(digits[0]) is Some);
    if digits.len() >= 2 {
        assert(hex_digit(digits[1]) is Some);
    }
    assert(without_marks(digits) == digits);
    assert(without_plus(digits) == digits);
}

} // verus!
