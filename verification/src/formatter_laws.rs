//! Laws of the labels: what a shown text tells, and what showing it again
//! leaves alone.

use vstd::prelude::*;

use crate::affinity;
use crate::formatters;
use crate::text;

verus! {

// ── Profile ids ─────────────────────────────────────────────────────────────

/// A profile id with an underscore for every dash.
pub open spec fn underscored(id: Seq<char>) -> Seq<char> {
    id.map_values(
        |c: char|
            if c == '-' {
                '_'
            } else {
                c
            },
    )
}

/// Whether a text holds no separator.
spec fn is_plain(s: Seq<char>) -> bool {
    forall|k: int| 0 <= k < s.len() ==> !formatters::is_separator(#[trigger] s[k])
}

/// Whether every text of a list is a word.
spec fn all_words(list: Seq<Seq<char>>) -> bool {
    forall|k: int| 0 <= k < list.len() ==> (#[trigger] list[k]).len() > 0 && is_plain(list[k])
}

proof fn lemma_word_is_plain(s: Seq<char>)
    ensures
        formatters::word_len(s) <= s.len(),
        forall|k: int|
            0 <= k < formatters::word_len(s) ==> !formatters::is_separator(#[trigger] s[k]),
    decreases s.len(),
{
    formatters::lemma_word_len(s);
    if s.len() > 0 && !formatters::is_separator(s[0]) {
        let rest = s.drop_first();
        lemma_word_is_plain(rest);
        assert forall|k: int|
            0 <= k < formatters::word_len(s) implies !formatters::is_separator(#[trigger] s[k]) by {
            if k > 0 {
                assert(s[k] == rest[k - 1]);
            }
        }
    }
}

proof fn lemma_underscored_word(s: Seq<char>)
    ensures
        formatters::word_len(underscored(s)) == formatters::word_len(s),
    decreases s.len(),
{
    if s.len() > 0 && !formatters::is_separator(s[0]) {
        lemma_underscored_word(s.drop_first());
        assert(underscored(s).drop_first() =~= underscored(s.drop_first()));
    }
}

proof fn lemma_underscored_words(s: Seq<char>)
    ensures
        formatters::words(underscored(s)) == formatters::words(s),
    decreases s.len(),
{
    lemma_underscored_word(s);
    lemma_word_is_plain(s);
    let n = formatters::word_len(s) as int;
    if s.len() == 0 {
        assert(underscored(s) =~= s);
    } else if n == 0 {
        assert(underscored(s).drop_first() =~= underscored(s.drop_first()));
        lemma_underscored_words(s.drop_first());
    } else {
        assert(underscored(s).take(n) =~= s.take(n));
        assert(underscored(s).skip(n) =~= underscored(s.skip(n)));
        lemma_underscored_words(s.skip(n));
    }
}

/// Dashes and underscores are the same to a shown id.
pub proof fn separators_are_interchangeable(id: Seq<char>)
    ensures
        formatters::pretty_id(underscored(id)) == formatters::pretty_id(id),
{
    lemma_underscored_words(id);
}

proof fn lemma_words_are_words(s: Seq<char>)
    ensures
        all_words(formatters::words(s)),
    decreases s.len(),
{
    lemma_word_is_plain(s);
    let n = formatters::word_len(s) as int;
    if s.len() == 0 {
    } else if n == 0 {
        lemma_words_are_words(s.drop_first());
    } else {
        let first = s.take(n);
        let rest = formatters::words(s.skip(n));
        lemma_words_are_words(s.skip(n));
        let all = formatters::words(s);
        assert forall|k: int| 0 <= k < all.len() implies (#[trigger] all[k]).len() > 0 && is_plain(
            all[k],
        ) by {
            if k > 0 {
                assert(all[k] == rest[k - 1]);
            }
        }
    }
}

proof fn lemma_upper_char(c: char)
    ensures
        text::upper_char(text::upper_char(c)) == text::upper_char(c),
        !formatters::is_separator(c) ==> !formatters::is_separator(text::upper_char(c)),
{
}

/// A word that was made pretty is a word with a capital in front, and stays as
/// it is when it is made pretty again.
proof fn lemma_pretty_word(w: Seq<char>)
    requires
        w.len() > 0,
        is_plain(w),
    ensures
        formatters::pretty_word(w).len() > 0,
        is_plain(formatters::pretty_word(w)),
        text::upper_char(formatters::pretty_word(w)[0]) == formatters::pretty_word(w)[0],
        formatters::pretty_word(formatters::pretty_word(w)) == formatters::pretty_word(w),
{
    let p = formatters::pretty_word(w);
    lemma_upper_char(w[0]);
    assert forall|k: int| 0 <= k < p.len() implies !formatters::is_separator(#[trigger] p[k]) by {
        assert(!formatters::is_separator(w[k]));
        lemma_upper_char(w[k]);
    }
    assert(text::upper(p) =~= text::upper(w)) by {
        assert forall|k: int| 0 <= k < p.len() implies text::upper_char(#[trigger] p[k])
            == text::upper_char(w[k]) by {
            lemma_upper_char(w[k]);
        }
    }
    assert(formatters::pretty_word(p) =~= p);
}

proof fn lemma_joined_words(list: Seq<Seq<char>>)
    requires
        all_words(list),
        list.len() > 0,
    ensures
        is_plain(text::join(list, " "@)),
        text::join(list, " "@).len() > 0,
        text::join(list, " "@)[0] == list[0][0],
        list.len() > 1 ==> text::join(list, " "@).contains(' '),
    decreases list.len(),
{
    reveal_strlit(" ");
    assert(" "@ =~= seq![' ']);
    let whole = text::join(list, " "@);
    assert(list[0].len() > 0 && is_plain(list[0]));
    if list.len() > 1 {
        let rest = list.drop_last();
        assert forall|k: int| 0 <= k < rest.len() implies (#[trigger] rest[k]).len() > 0
            && is_plain(rest[k]) by {
            assert(rest[k] == list[k]);
        }
        lemma_joined_words(rest);
        let head = text::join(rest, " "@);
        let last = list[list.len() - 1];
        assert(is_plain(last));
        assert(whole == head + seq![' '] + last);
        assert(whole[head.len() as int] == ' ');
        assert forall|k: int| 0 <= k < whole.len() implies !formatters::is_separator(
            #[trigger] whole[k],
        ) by {
            if k < head.len() {
                assert(whole[k] == head[k]);
            } else if k > head.len() {
                assert(whole[k] == last[k - head.len() - 1]);
            }
        }
    }
}

proof fn lemma_plain_word_len(s: Seq<char>)
    requires
        is_plain(s),
    ensures
        formatters::word_len(s) == s.len(),
    decreases s.len(),
{
    if s.len() > 0 {
        let rest = s.drop_first();
        assert(!formatters::is_separator(s[0]));
        assert forall|k: int| 0 <= k < rest.len() implies !formatters::is_separator(
            #[trigger] rest[k],
        ) by {
            assert(rest[k] == s[k + 1]);
        }
        lemma_plain_word_len(rest);
    }
}

proof fn lemma_plain_is_one_word(s: Seq<char>)
    requires
        is_plain(s),
        s.len() > 0,
    ensures
        formatters::words(s) == seq![s],
{
    lemma_plain_word_len(s);
    assert(s.take(s.len() as int) =~= s);
    assert(s.skip(s.len() as int) =~= Seq::empty());
    assert(formatters::words(Seq::<char>::empty()) =~= Seq::empty());
    assert(formatters::words(s) =~= seq![s]);
}

proof fn lemma_acronyms_hold_no_blank(w: Seq<char>)
    requires
        w.contains(' '),
    ensures
        !formatters::is_acronym(text::upper(w)),
{
    let k = w.index_of(' ');
    let u = text::upper(w);
    assert(u[k] == ' ');
    reveal_strlit("X3D");
    reveal_strlit("CPU");
    reveal_strlit("GPU");
    reveal_strlit("RAM");
    reveal_strlit("IO");
    reveal_strlit("CCD");
    reveal_strlit("AMD");
    reveal_strlit("NV");
    reveal_strlit("DLSS");
    if formatters::is_acronym(u) {
        assert(2 <= u.len() <= 4);
        assert(u[0] != ' ' && u[1] != ' ');
        assert(u.len() > 2 ==> u[2] != ' ');
        assert(u.len() > 3 ==> u[3] != ' ');
    }
}

/// Showing an id that is already shown changes nothing.
pub proof fn shown_ids_are_shown_alike(id: Seq<char>)
    ensures
        formatters::pretty_id(formatters::pretty_id(id)) == formatters::pretty_id(id),
{
    let pretty = |w: Seq<char>| formatters::pretty_word(w);
    let plain = formatters::words(id);
    let list = plain.map_values(pretty);
    let shown = formatters::pretty_id(id);
    lemma_words_are_words(id);
    assert forall|k: int| 0 <= k < list.len() implies (#[trigger] list[k]).len() > 0 && is_plain(
        list[k],
    ) by {
        assert(plain[k].len() > 0 && is_plain(plain[k]));
        lemma_pretty_word(plain[k]);
    }
    if list.len() == 0 {
        assert(shown =~= Seq::empty());
        assert(formatters::words(shown).map_values(pretty) =~= Seq::empty());
    } else {
        assert(plain[0].len() > 0 && is_plain(plain[0]));
        lemma_pretty_word(plain[0]);
        lemma_joined_words(list);
        lemma_plain_is_one_word(shown);
        if list.len() > 1 {
            lemma_acronyms_hold_no_blank(shown);
            assert(list[0][0] == formatters::pretty_word(plain[0])[0]);
            assert(formatters::pretty_word(shown) =~= shown);
        }
        assert(formatters::words(shown).map_values(pretty) =~= seq![shown]);
    }
}

// ── Affinity masks ──────────────────────────────────────────────────────────

proof fn lemma_decimal_digits(n: nat)
    ensures
        text::decimal(n).len() > 0,
        forall|k: int|
            0 <= k < text::decimal(n).len() ==> '0' <= #[trigger] text::decimal(n)[k]
                && text::decimal(n)[k] <= '9',
        n >= 10 ==> text::decimal(n).len() > 1,
    decreases n,
{
    if n >= 10 {
        lemma_decimal_digits(n / 10);
        let head = text::decimal(n / 10);
        let all = text::decimal(n);
        assert(all == head.push(text::digit(n % 10)));
        assert forall|k: int| 0 <= k < all.len() implies '0' <= #[trigger] all[k] && all[k]
            <= '9' by {
            if k < head.len() {
                assert(all[k] == head[k]);
            }
        }
    }
}

/// Different numbers are written differently.
proof fn lemma_decimals_differ(m: nat, n: nat)
    requires
        text::decimal(m) == text::decimal(n),
    ensures
        m == n,
    decreases m,
{
    lemma_decimal_digits(m);
    lemma_decimal_digits(n);
    if m < 10 || n < 10 {
        if m < 10 {
            assert(text::decimal(m) =~= seq![text::digit(m)]);
        }
        if n < 10 {
            assert(text::decimal(n) =~= seq![text::digit(n)]);
        }
        assert(m < 10 && n < 10);
        assert(seq![text::digit(m)][0] == seq![text::digit(n)][0]);
        assert(text::digit(m) as int == 48 + m);
        assert(text::digit(n) as int == 48 + n);
    } else {
        let a = text::decimal(m / 10);
        let b = text::decimal(n / 10);
        assert(text::decimal(m) == a.push(text::digit(m % 10)));
        assert(text::decimal(n) == b.push(text::digit(n % 10)));
        assert(text::decimal(m).drop_last() =~= a);
        assert(text::decimal(n).drop_last() =~= b);
        assert(a.push(text::digit(m % 10)).last() == b.push(text::digit(n % 10)).last());
        assert(text::digit(m % 10) as int == 48 + m % 10);
        assert(text::digit(n % 10) as int == 48 + n % 10);
        lemma_decimals_differ(m / 10, n / 10);
    }
}

/// A text is split at the first occurrence of a character in one way only.
proof fn lemma_split_at_first(a: Seq<char>, b: Seq<char>, c: Seq<char>, d: Seq<char>, ch: char)
    requires
        a.push(ch) + b == c.push(ch) + d,
        !a.contains(ch),
        !c.contains(ch),
    ensures
        a == c,
        b == d,
{
    let left = a.push(ch) + b;
    let right = c.push(ch) + d;
    assert(left.len() == a.len() + 1 + b.len());
    assert(right.len() == c.len() + 1 + d.len());
    assert(left[a.len() as int] == ch);
    assert(right[c.len() as int] == ch);
    if a.len() < c.len() {
        assert(right[a.len() as int] == c[a.len() as int]);
        assert(c.contains(c[a.len() as int]));
    }
    if c.len() < a.len() {
        assert(left[c.len() as int] == a[c.len() as int]);
        assert(a.contains(a[c.len() as int]));
    }
    assert(left.take(a.len() as int) =~= a);
    assert(right.take(c.len() as int) =~= c);
    assert(left.skip(a.len() as int + 1) =~= b);
    assert(right.skip(c.len() as int + 1) =~= d);
}

/// A text is split at the last occurrence of a character in one way only.
proof fn lemma_split_at_last(a: Seq<char>, b: Seq<char>, c: Seq<char>, d: Seq<char>, ch: char)
    requires
        a.push(ch) + b == c.push(ch) + d,
        !b.contains(ch),
        !d.contains(ch),
    ensures
        a == c,
        b == d,
{
    let left = a.push(ch) + b;
    let right = c.push(ch) + d;
    assert(left.len() == a.len() + 1 + b.len());
    assert(right.len() == c.len() + 1 + d.len());
    assert(left[a.len() as int] == ch);
    assert(right[c.len() as int] == ch);
    if a.len() < c.len() {
        assert(left[c.len() as int] == b[c.len() - a.len() - 1]);
        assert(b.contains(b[c.len() - a.len() - 1]));
    }
    if c.len() < a.len() {
        assert(right[a.len() as int] == d[a.len() - c.len() - 1]);
        assert(d.contains(d[a.len() - c.len() - 1]));
    }
    assert(left.take(a.len() as int) =~= a);
    assert(right.take(c.len() as int) =~= c);
    assert(left.skip(a.len() as int + 1) =~= b);
    assert(right.skip(c.len() as int + 1) =~= d);
}

/// Whether a text can be a part of a list with commas.
spec fn is_part(s: Seq<char>) -> bool {
    s.len() > 0 && !s.contains(',')
}

proof fn lemma_run_text(run: (nat, nat))
    ensures
        is_part(formatters::run_text(run)),
        formatters::run_text(run).contains('–') <==> run.0 != run.1,
        run.0 != run.1 ==> formatters::run_text(run) == text::decimal(run.0).push('–')
            + text::decimal(run.1),
        !text::decimal(run.0).contains('–'),
{
    reveal_strlit("–");
    assert("–"@ =~= seq!['–']);
    lemma_decimal_digits(run.0);
    lemma_decimal_digits(run.1);
    let a = text::decimal(run.0);
    let b = text::decimal(run.1);
    let s = formatters::run_text(run);
    if a.contains('–') {
        let k = a.index_of('–');
        assert(a[k] <= '9');
    }
    if run.0 != run.1 {
        assert(s =~= a.push('–') + b);
        assert(s[a.len() as int] == '–');
    }
    if s.contains(',') {
        let k = s.index_of(',');
        if k < a.len() {
            assert(s[k] == a[k]);
        } else if k > a.len() {
            assert(s[k] == b[k - a.len() - 1]);
        }
    }
}

/// Different runs are written differently.
proof fn lemma_runs_differ(x: (nat, nat), y: (nat, nat))
    requires
        formatters::run_text(x) == formatters::run_text(y),
    ensures
        x == y,
{
    lemma_run_text(x);
    lemma_run_text(y);
    if x.0 == x.1 {
        lemma_decimals_differ(x.0, y.0);
    } else {
        lemma_split_at_first(
            text::decimal(x.0),
            text::decimal(x.1),
            text::decimal(y.0),
            text::decimal(y.1),
            '–',
        );
        lemma_decimals_differ(x.0, y.0);
        lemma_decimals_differ(x.1, y.1);
    }
}

/// The last comma of a list stands in front of its last part.
proof fn lemma_join_ends(list: Seq<Seq<char>>)
    requires
        list.len() > 1,
        is_part(list[list.len() - 1]),
    ensures
        text::join(list, ", "@) == text::join(list.drop_last(), ", "@).push(',') + (seq![' ']
            + list.last()),
        !(seq![' '] + list.last()).contains(','),
        text::join(list, ", "@).contains(','),
{
    reveal_strlit(", ");
    assert(", "@ =~= seq![',', ' ']);
    let head = text::join(list.drop_last(), ", "@);
    let end = seq![' '] + list.last();
    let whole = text::join(list, ", "@);
    assert(whole =~= head.push(',') + end);
    assert(whole[head.len() as int] == ',');
    if end.contains(',') {
        let k = end.index_of(',');
        assert(list.last()[k - 1] == ',');
    }
}

/// Different lists are written differently.
proof fn lemma_lists_differ(a: Seq<Seq<char>>, b: Seq<Seq<char>>)
    requires
        forall|k: int| 0 <= k < a.len() ==> is_part(#[trigger] a[k]),
        forall|k: int| 0 <= k < b.len() ==> is_part(#[trigger] b[k]),
        text::join(a, ", "@) == text::join(b, ", "@),
    ensures
        a == b,
    decreases a.len(),
{
    if a.len() > 1 {
        lemma_join_ends(a);
    }
    if b.len() > 1 {
        lemma_join_ends(b);
    }
    if a.len() == 0 || b.len() == 0 {
        if a.len() == 1 {
            assert(is_part(a[0]));
        }
        if b.len() == 1 {
            assert(is_part(b[0]));
        }
        assert(a =~= b);
    } else if a.len() == 1 || b.len() == 1 {
        assert(is_part(a[0]) && is_part(b[0]));
        assert(a =~= b);
    } else {
        let p = a.drop_last();
        let q = b.drop_last();
        lemma_split_at_last(
            text::join(p, ", "@),
            seq![' '] + a.last(),
            text::join(q, ", "@),
            seq![' '] + b.last(),
            ',',
        );
        assert((seq![' '] + a.last()).drop_first() =~= a.last());
        assert((seq![' '] + b.last()).drop_first() =~= b.last());
        assert forall|k: int| 0 <= k < p.len() implies is_part(#[trigger] p[k]) by {
            assert(p[k] == a[k]);
        }
        assert forall|k: int| 0 <= k < q.len() implies is_part(#[trigger] q[k]) by {
            assert(q[k] == b[k]);
        }
        lemma_lists_differ(p, q);
        assert(a =~= p.push(a.last()));
        assert(b =~= q.push(b.last()));
    }
}

/// The text of a mask determines the mask: different masks have different
/// texts.
pub proof fn mask_texts_tell_masks_apart(a: u64, b: u64)
    requires
        a != b,
    ensures
        formatters::affinity_text(a) != formatters::affinity_text(b),
{
    if formatters::affinity_text(a) == formatters::affinity_text(b) {
        let show = |r: (nat, nat)| formatters::run_text(r);
        let ra = formatters::runs_from(a, 0);
        let rb = formatters::runs_from(b, 0);
        let ta = ra.map_values(show);
        let tb = rb.map_values(show);
        let front = "CPUs: "@;
        reveal_strlit("(none)");
        reveal_strlit("CPUs: ");
        assert(a != 0 && b != 0) by {
            assert("(none)"@[0] == '(');
            assert((front + text::join(ta, ", "@))[0] == 'C');
            assert((front + text::join(tb, ", "@))[0] == 'C');
        }
        assert((front + text::join(ta, ", "@)).skip(front.len() as int) =~= text::join(ta, ", "@));
        assert((front + text::join(tb, ", "@)).skip(front.len() as int) =~= text::join(tb, ", "@));
        assert forall|k: int| 0 <= k < ta.len() implies is_part(#[trigger] ta[k]) by {
            lemma_run_text(ra[k]);
        }
        assert forall|k: int| 0 <= k < tb.len() implies is_part(#[trigger] tb[k]) by {
            lemma_run_text(rb[k]);
        }
        lemma_lists_differ(ta, tb);
        assert(ra =~= rb) by {
            assert(ra.len() == ta.len() && rb.len() == tb.len());
            assert forall|k: int| 0 <= k < ra.len() implies ra[k] == rb[k] by {
                assert(ta[k] == tb[k]);
                lemma_runs_differ(ra[k], rb[k]);
            }
        }
        assert forall|i: nat| i < 64 implies #[trigger] formatters::has_cpu(a, i)
            == formatters::has_cpu(b, i) by {
            formatters::runs_are_exactly_the_set_bits(a, i);
            formatters::runs_are_exactly_the_set_bits(b, i);
        }
        affinity::masks_are_told_apart_by_their_processors(a, b);
    }
}

} // verus!
