//! Synced lyrics in the `.lrc` format: `[mm:ss.xx]Text` lines, parsed into
//! time-ordered entries, and the line that is current at a given time.

use vstd::prelude::*;
use crate::text::{
    all_digits, all_digits_in, digits_value, digits_value_in, find_char, find_first,
    fraction_nanos_in, fraction_value, trim, trim_bounds, trim_end, trim_start,
};

verus! {

/// Nanoseconds in a second.
pub const NANOS_PER_SEC: u128 = 1_000_000_000;

/// The seconds field of a timestamp split at its decimal point: the digits
/// before it and the digits after it (`ss`, `ss.`, `ss.xx` or `.xx`).
pub open spec fn seconds_parts(s: Seq<char>) -> Option<(Seq<char>, Seq<char>)> {
    match find_first(s, '.') {
        Some(d) => if all_digits(s.take(d)) && all_digits(s.skip(d + 1)) && s.len() > 1 {
            Some((s.take(d), s.skip(d + 1)))
        } else {
            None
        },
        None => if s.len() > 0 && all_digits(s) {
            Some((s, Seq::<char>::empty()))
        } else {
            None
        },
    }
}

/// The time, in nanoseconds, that the tag text `mm:ss.xx` (or `mm:ss`) spells:
/// the text is cut at its first `:`, each side is trimmed of white space,
/// the minutes are decimal digits and the seconds a decimal number;
/// fraction digits past the ninth are dropped.
pub open spec fn timestamp_nanos(tag: Seq<char>) -> Option<nat> {
    match find_first(tag, ':') {
        None => None,
        Some(c) => {
            let m = trim(tag.take(c));
            let s = trim(tag.skip(c + 1));
            if m.len() > 0 && all_digits(m) {
                match seconds_parts(s) {
                    Some(parts) => Some(
                        (digits_value(m) * 60 + digits_value(parts.0)) * (NANOS_PER_SEC as nat)
                            + fraction_value(parts.1, 100_000_000),
                    ),
                    None => None,
                }
            } else {
                None
            }
        },
    }
}

/// What `parse_timestamp` returns for `tag`: the time where it is a timestamp
/// that fits in `u128` nanoseconds, else nothing.
pub open spec fn spec_parse_timestamp(tag: Seq<char>) -> Option<u128> {
    match timestamp_nanos(tag) {
        Some(v) => if v <= u128::MAX {
            Some(v as u128)
        } else {
            None
        },
        None => None,
    }
}

/// Parses the timestamp held in `cs[lo..hi]`.
fn parse_timestamp_in(cs: &Vec<char>, lo: usize, hi: usize) -> (r: Option<u128>)
    requires
        lo <= hi <= cs.len(),
    ensures
        r == spec_parse_timestamp(cs@.subrange(lo as int, hi as int)),
{
    let ghost tag = cs@.subrange(lo as int, hi as int);
    let colon = match find_char(cs, lo, hi, ':') {
        Some(p) => p,
        None => return None,
    };
    assert(tag.take(colon - lo) =~= cs@.subrange(lo as int, colon as int));
    assert(tag.skip(colon - lo + 1) =~= cs@.subrange(colon + 1, hi as int));
    let (ma, mb) = trim_bounds(cs, lo, colon);
    if ma == mb || !all_digits_in(cs, ma, mb) {
        return None;
    }
    let (sa, sb) = trim_bounds(cs, colon + 1, hi);
    let ghost s = cs@.subrange(sa as int, sb as int);
    let ia: usize = sa;
    let ib: usize;
    let fa: usize;
    let fb: usize = sb;
    match find_char(cs, sa, sb, '.') {
        Some(d) => {
            assert(s.take(d - sa) =~= cs@.subrange(sa as int, d as int));
            assert(s.skip(d - sa + 1) =~= cs@.subrange(d + 1, sb as int));
            if !(sb - sa > 1 && all_digits_in(cs, sa, d) && all_digits_in(cs, d + 1, sb)) {
                return None;
            }
            ib = d;
            fa = d + 1;
        },
        None => {
            if sa == sb || !all_digits_in(cs, sa, sb) {
                return None;
            }
            ib = sb;
            fa = sb;
            assert(cs@.subrange(fa as int, fb as int) =~= Seq::<char>::empty());
        },
    }
    let ghost mins = digits_value(cs@.subrange(ma as int, mb as int));
    let ghost secs = digits_value(cs@.subrange(ia as int, ib as int));
    let ghost frac = fraction_value(cs@.subrange(fa as int, fb as int), 100_000_000);
    let ghost total: nat = (mins * 60 + secs) * (NANOS_PER_SEC as nat) + frac;
    assert(timestamp_nanos(tag) == Some(total));
    let fr = fraction_nanos_in(cs, fa, fb);
    let m = match digits_value_in(cs, ma, mb) {
        Some(v) => v,
        None => {
            assert(total >= mins) by (nonlinear_arith)
                requires
                    total == (mins * 60 + secs) * 1_000_000_000 + frac,
            ;
            return None;
        },
    };
    let sv = match digits_value_in(cs, ia, ib) {
        Some(v) => v,
        None => {
            assert(total >= secs) by (nonlinear_arith)
                requires
                    total == (mins * 60 + secs) * 1_000_000_000 + frac,
            ;
            return None;
        },
    };
    let m60 = match m.checked_mul(60) {
        Some(v) => v,
        None => {
            assert(total >= mins * 60) by (nonlinear_arith)
                requires
                    total == (mins * 60 + secs) * 1_000_000_000 + frac,
            ;
            return None;
        },
    };
    let whole = match m60.checked_add(sv) {
        Some(v) => v,
        None => {
            assert(total >= mins * 60 + secs) by (nonlinear_arith)
                requires
                    total == (mins * 60 + secs) * 1_000_000_000 + frac,
            ;
            return None;
        },
    };
    let whole_nanos = match whole.checked_mul(NANOS_PER_SEC) {
        Some(v) => v,
        None => {
            return None;
        },
    };
    match whole_nanos.checked_add(fr) {
        Some(v) => Some(v),
        None => None,
    }
}

/// Parses `"mm:ss.xx"` or `"mm:ss"` into nanoseconds. Returns `None` for
/// anything that isn't a timestamp (e.g. metadata tags like `"ar:Some Artist"`).
pub fn parse_timestamp(tag: &str) -> (r: Option<u128>)
    ensures
        r == spec_parse_timestamp(tag@),
{
    let cs = crate::text::chars_of(tag);
    assert(cs@.subrange(0, cs@.len() as int) =~= tag@);
    parse_timestamp_in(&cs, 0, cs.len())
}

} // verus!

verus! {

/// One lyric line as a value: its time in nanoseconds and its text.
pub type LineView = (u128, Seq<char>);

/// A timed line of lyrics.
#[derive(Debug)]
pub struct LyricLine {
    pub time_nanos: u128,
    pub text: String,
}

impl View for LyricLine {
    type V = LineView;

    open spec fn view(&self) -> LineView {
        (self.time_nanos, self.text@)
    }
}

impl Clone for LyricLine {
    fn clone(&self) -> (r: Self)
        ensures
            r@ == self@,
    {
        LyricLine { time_nanos: self.time_nanos, text: self.text.clone() }
    }
}

/// The lines of a lyrics file in time order.
#[derive(Debug, Default)]
pub struct Lyrics {
    pub lines: Vec<LyricLine>,
}

/// The values of a run of lyric lines.
pub open spec fn lines_view(v: Seq<LyricLine>) -> Seq<LineView> {
    v.map_values(|l: LyricLine| l@)
}

impl View for Lyrics {
    type V = Seq<LineView>;

    open spec fn view(&self) -> Seq<LineView> {
        lines_view(self.lines@)
    }
}

/// The pieces of `s` between line feeds (a `\r` before a line feed stays
/// with its line and is trimmed away with the other white space).
pub open spec fn split_lines(s: Seq<char>) -> Seq<Seq<char>>
    decreases s.len(),
{
    match find_first(s, '\n') {
        None => seq![s],
        Some(i) => {
            proof {
                crate::text::lemma_find_first_some(s, '\n');
            }
            seq![s.take(i)] + split_lines(s.skip(i + 1))
        },
    }
}

/// The timestamps of the bracketed tags that lead `rest`, and what follows
/// them. Tags that are not timestamps (metadata such as `[ar:Artist]`) are
/// passed over; a `[` with no `]` after it ends the tags.
pub open spec fn leading_tags(rest: Seq<char>) -> (Seq<u128>, Seq<char>)
    decreases rest.len(),
{
    if rest.len() > 0 && rest[0] == '[' {
        match find_first(rest, ']') {
            Some(close) => {
                proof {
                    crate::text::lemma_find_first_some(rest, ']');
                }
                let after = leading_tags(rest.skip(close + 1));
                match spec_parse_timestamp(rest.subrange(1, close)) {
                    Some(t) => (seq![t] + after.0, after.1),
                    None => after,
                }
            },
            None => (Seq::<u128>::empty(), rest),
        }
    } else {
        (Seq::<u128>::empty(), rest)
    }
}

/// The entries that one line of a lyrics file gives: one per leading
/// timestamp, each with the trimmed text after the tags. Blank lines give none.
pub open spec fn line_entries(raw: Seq<char>) -> Seq<LineView> {
    let line = trim(raw);
    if line.len() == 0 {
        Seq::<LineView>::empty()
    } else {
        let tags = leading_tags(line);
        let text = trim(tags.1);
        tags.0.map_values(|t: u128| (t, text))
    }
}

/// The entries of a run of lines, in file order.
pub open spec fn entries_of(lines: Seq<Seq<char>>) -> Seq<LineView>
    decreases lines.len(),
{
    if lines.len() == 0 {
        Seq::<LineView>::empty()
    } else {
        line_entries(lines[0]) + entries_of(lines.drop_first())
    }
}

/// The entries of a whole lyrics file, in file order.
pub open spec fn lrc_entries(contents: Seq<char>) -> Seq<LineView> {
    entries_of(split_lines(contents))
}

/// Entries in time order.
pub open spec fn sorted_by_time(s: Seq<LineView>) -> bool {
    forall|i: int, j: int| 0 <= i <= j < s.len() ==> s[i].0 <= s[j].0
}

/// Whether an entry is at time `t`.
pub open spec fn time_is(t: u128) -> spec_fn(LineView) -> bool {
    |e: LineView| e.0 == t
}

/// The entries of `s` at time `t`, in their order in `s`.
pub open spec fn at_time(s: Seq<LineView>, t: u128) -> Seq<LineView> {
    s.filter(time_is(t))
}

/// The last entry of `s` whose time is at or before `t`.
pub open spec fn latest_at_or_before(s: Seq<LineView>, t: u128) -> Option<int>
    decreases s.len(),
{
    if s.len() == 0 {
        None
    } else if s.last().0 <= t {
        Some(s.len() - 1)
    } else {
        latest_at_or_before(s.drop_last(), t)
    }
}

/// Appends to `out` the entries of the line `cs[lo..hi]`.
fn push_line_entries(cs: &Vec<char>, lo: usize, hi: usize, out: &mut Vec<LyricLine>)
    requires
        lo <= hi <= cs.len(),
    ensures
        lines_view(final(out)@) == lines_view(old(out)@) + line_entries(
            cs@.subrange(lo as int, hi as int),
        ),
{
    let ghost raw = cs@.subrange(lo as int, hi as int);
    let (a, b) = trim_bounds(cs, lo, hi);
    if a == b {
        assert(lines_view(out@) + line_entries(raw) =~= lines_view(out@));
        return;
    }
    let ghost line = cs@.subrange(a as int, b as int);
    let mut times: Vec<u128> = Vec::new();
    let mut pos: usize = a;
    loop
        invariant
            a <= pos <= b <= cs.len(),
            line == cs@.subrange(a as int, b as int),
            times@ + leading_tags(cs@.subrange(pos as int, b as int)).0 == leading_tags(line).0,
            leading_tags(cs@.subrange(pos as int, b as int)).1 == leading_tags(line).1,
        ensures
            a <= pos <= b,
            times@ == leading_tags(line).0,
            cs@.subrange(pos as int, b as int) == leading_tags(line).1,
        decreases b - pos,
    {
        let ghost rest = cs@.subrange(pos as int, b as int);
        if pos == b || cs[pos] != '[' {
            assert(times@ + Seq::<u128>::empty() =~= times@);
            break;
        }
        match find_char(cs, pos, b, ']') {
            None => {
                assert(times@ + Seq::<u128>::empty() =~= times@);
                break;
            },
            Some(close) => {
                proof {
                    crate::text::lemma_find_first_some(rest, ']');
                }
                assert(close > pos);
                assert(rest.skip(close - pos + 1) =~= cs@.subrange(close + 1, b as int));
                assert(rest.subrange(1, close - pos) =~= cs@.subrange(pos + 1, close as int));
                let ghost after = leading_tags(cs@.subrange(close + 1, b as int));
                match parse_timestamp_in(cs, pos + 1, close) {
                    Some(t) => {
                        assert(leading_tags(rest) == (seq![t] + after.0, after.1));
                        let ghost before = times@;
                        times.push(t);
                        assert(times@ + after.0 =~= before + (seq![t] + after.0));
                    },
                    None => {
                        assert(leading_tags(rest) == after);
                    },
                }
                pos = close + 1;
            },
        }
    }
    let (ta, tb) = trim_bounds(cs, pos, b);
    let text = crate::text::string_from(cs, ta, tb);
    let ghost entries = times@.map_values(|t: u128| (t, text@));
    assert(line_entries(raw) == entries);
    let mut k: usize = 0;
    while k < times.len()
        invariant
            0 <= k <= times.len(),
            entries == times@.map_values(|t: u128| (t, text@)),
            lines_view(out@) == lines_view(old(out)@) + entries.take(k as int),
        decreases times.len() - k,
    {
        let line = LyricLine { time_nanos: times[k], text: text.clone() };
        assert(line@ == entries[k as int]);
        let ghost before = out@;
        out.push(line);
        assert(lines_view(out@) =~= lines_view(before).push(entries[k as int]));
        assert(entries.take(k + 1) =~= entries.take(k as int).push(entries[k as int]));
        assert(lines_view(out@) =~= lines_view(old(out)@) + entries.take(k + 1));
        k += 1;
    }
    assert(entries.take(k as int) =~= entries);
}

} // verus!

verus! {

/// Entries that all lie strictly before time `t` have nothing at `t`.
proof fn lemma_at_time_none(s: Seq<LineView>, t: u128)
    requires
        forall|i: int| 0 <= i < s.len() ==> s[i].0 < t,
    ensures
        at_time(s, t) == Seq::<LineView>::empty(),
{
    let pred = time_is(t);
    assert(s.all(|x: LineView| !pred(x)));
    s.lemma_all_neg_filter_empty(pred);
    assert(at_time(s, t) =~= Seq::<LineView>::empty());
}

/// Inserting `x` after the entries that come strictly before it adds `x`
/// in front of the entries at its own time and leaves other times alone.
proof fn lemma_at_time_insert(s: Seq<LineView>, p: int, x: LineView, t: u128)
    requires
        0 <= p <= s.len(),
        forall|i: int| 0 <= i < p ==> s[i].0 < x.0,
    ensures
        at_time(s.insert(p, x), t) == (if t == x.0 {
            seq![x] + at_time(s, t)
        } else {
            at_time(s, t)
        }),
{
    let pred = time_is(t);
    let a = s.take(p);
    let b = s.skip(p);
    assert(s.insert(p, x) =~= a + (seq![x] + b));
    assert(s =~= a + b);
    Seq::filter_distributes_over_add(a, seq![x] + b, pred);
    Seq::filter_distributes_over_add(a, b, pred);
    b.lemma_filter_prepend(x, pred);
    if t == x.0 {
        lemma_at_time_none(a, t);
        assert(at_time(s.insert(p, x), t) =~= seq![x] + at_time(s, t));
    } else {
        assert(at_time(s.insert(p, x), t) =~= at_time(s, t));
    }
}

/// Puts `v` in time order, keeping entries with equal times in their order in `v`.
fn sort_by_time(v: Vec<LyricLine>) -> (r: Vec<LyricLine>)
    ensures
        sorted_by_time(lines_view(r@)),
        forall|t: u128| #[trigger] at_time(lines_view(r@), t) == at_time(lines_view(v@), t),
{
    let ghost orig = lines_view(v@);
    let mut rest = v;
    let mut out: Vec<LyricLine> = Vec::new();
    assert(orig.skip(orig.len() as int) =~= Seq::<LineView>::empty());
    assert(lines_view(out@) =~= Seq::<LineView>::empty());
    while rest.len() > 0
        invariant
            lines_view(rest@) == orig.take(rest.len() as int),
            rest.len() <= orig.len(),
            sorted_by_time(lines_view(out@)),
            forall|t: u128| #[trigger]
                at_time(lines_view(out@), t) == at_time(orig.skip(rest.len() as int), t),
        decreases rest.len(),
    {
        let m = rest.len();
        let ghost rv = rest@;
        let x = rest.pop().unwrap();
        assert(lines_view(rest@) =~= orig.take(m - 1));
        assert(x@ == orig[m - 1]) by {
            assert(lines_view(rv)[m - 1] == x@);
        }
        let ghost s = lines_view(out@);
        let mut p: usize = 0;
        while p < out.len() && out[p].time_nanos < x.time_nanos
            invariant
                0 <= p <= out.len(),
                s == lines_view(out@),
                forall|i: int| 0 <= i < p ==> s[i].0 < x.time_nanos,
            decreases out.len() - p,
        {
            p += 1;
        }
        let ghost xv = x@;
        out.insert(p, x);
        assert(lines_view(out@) =~= s.insert(p as int, xv));
        assert(orig.skip(m - 1) =~= seq![xv] + orig.skip(m as int));
        assert forall|t: u128| #[trigger]
            at_time(lines_view(out@), t) == at_time(orig.skip(rest.len() as int), t) by {
            lemma_at_time_insert(s, p as int, xv, t);
            orig.skip(m as int).lemma_filter_prepend(xv, time_is(t));
        }
        assert forall|i: int, j: int|
            0 <= i <= j < lines_view(out@).len() implies lines_view(out@)[i].0 <= lines_view(
            out@,
        )[j].0 by {
            if p < s.len() {
                assert(!(s[p as int].0 < xv.0));
            }
        }
    }
    assert(orig.skip(0) =~= orig);
    out
}

} // verus!

verus! {

impl Lyrics {
    /// Parses the text of an `.lrc` file. Each line is trimmed; blank lines
    /// are skipped; a line may lead with several tags, e.g.
    /// `[00:12.00][00:45.00]Text`, and gives one entry per timestamp tag,
    /// all with the trimmed text after the tags; tags that are not timestamps
    /// (metadata such as `[ar:Artist]`) give nothing. The entries come out in
    /// time order, and entries with equal times keep their order in the file.
    pub fn parse(contents: &str) -> (r: Lyrics)
        ensures
            sorted_by_time(r@),
            forall|t: u128| #[trigger] at_time(r@, t) == at_time(lrc_entries(contents@), t),
            r@.to_multiset() == lrc_entries(contents@).to_multiset(),
    {
        let cs = crate::text::chars_of(contents);
        let n = cs.len();
        let mut entries: Vec<LyricLine> = Vec::new();
        let mut pos: usize = 0;
        assert(cs@.skip(0) =~= cs@);
        assert(lines_view(entries@) + entries_of(split_lines(cs@.skip(0))) =~= lrc_entries(
            cs@,
        ));
        loop
            invariant_except_break
                lines_view(entries@) + entries_of(split_lines(cs@.skip(pos as int)))
                    == lrc_entries(cs@),
            invariant
                pos <= n == cs.len(),
                cs@ == contents@,
            ensures
                lines_view(entries@) == lrc_entries(cs@),
            decreases n - pos,
        {
            let ghost rest = cs@.skip(pos as int);
            let ghost before = lines_view(entries@);
            assert(cs@.subrange(pos as int, n as int) =~= rest);
            match find_char(&cs, pos, n, '\n') {
                Some(e) => {
                    let ghost line = cs@.subrange(pos as int, e as int);
                    let ghost tail = cs@.skip(e + 1);
                    assert(rest.take(e - pos) =~= line);
                    assert(rest.skip(e - pos + 1) =~= tail);
                    let ghost lines = seq![line] + split_lines(tail);
                    assert(split_lines(rest) == lines);
                    assert(lines[0] == line);
                    assert(lines.drop_first() =~= split_lines(tail));
                    assert(entries_of(lines) == line_entries(line) + entries_of(split_lines(tail)));
                    push_line_entries(&cs, pos, e, &mut entries);
                    assert(lines_view(entries@) + entries_of(split_lines(tail)) =~= before
                        + entries_of(lines));
                    pos = e + 1;
                },
                None => {
                    let ghost lines = seq![rest];
                    assert(split_lines(rest) == lines);
                    assert(lines.drop_first() =~= Seq::<Seq<char>>::empty());
                    assert(entries_of(lines.drop_first()) == Seq::<LineView>::empty());
                    assert(entries_of(lines) =~= line_entries(rest));
                    push_line_entries(&cs, pos, n, &mut entries);
                    break;
                },
            }
        }
        let sorted = sort_by_time(entries);
        let r = Lyrics { lines: sorted };
        proof {
            lemma_same_entries(r@, lrc_entries(contents@));
        }
        r
    }

    /// Returns the text of the most recent lyric line at or before `time_nanos`:
    /// the last line, in the order of `lines`, whose time is not after it.
    pub fn current_line(&self, time_nanos: u128) -> (r: Option<&str>)
        ensures
            match latest_at_or_before(self@, time_nanos) {
                Some(i) => r is Some && r.unwrap()@ == self@[i].1,
                None => r is None,
            },
    {
        let mut i: usize = self.lines.len();
        assert(self@.take(i as int) =~= self@);
        while i > 0
            invariant
                i <= self.lines.len(),
                latest_at_or_before(self@, time_nanos) == latest_at_or_before(
                    self@.take(i as int),
                    time_nanos,
                ),
            decreases i,
        {
            let ghost pre = self@.take(i as int);
            assert(pre.drop_last() =~= self@.take(i - 1));
            assert(pre.last() == self.lines@[i - 1]@);
            if self.lines[i - 1].time_nanos <= time_nanos {
                return Some(self.lines[i - 1].text.as_str());
            }
            i -= 1;
        }
        assert(self@.take(0).len() == 0);
        None
    }
}

} // verus!

verus! {

/// For lines in time order, the line that `current_line` picks is the most
/// recent one: its time is at or before `t`, every line at or before `t` is
/// no later than it, and every line after it is after `t`; where it picks
/// none, every line is after `t`.
pub proof fn lemma_current_line_is_most_recent(lines: Seq<LineView>, t: u128)
    requires
        sorted_by_time(lines),
    ensures
        match latest_at_or_before(lines, t) {
            Some(i) => {
                &&& 0 <= i < lines.len()
                &&& lines[i].0 <= t
                &&& forall|j: int| 0 <= j < lines.len() && lines[j].0 <= t ==> lines[j].0 <= lines[i].0
                &&& forall|j: int| i < j < lines.len() ==> lines[j].0 > t
            },
            None => forall|j: int| 0 <= j < lines.len() ==> lines[j].0 > t,
        },
    decreases lines.len(),
{
    if lines.len() > 0 && lines.last().0 > t {
        let rest = lines.drop_last();
        assert(sorted_by_time(rest));
        lemma_current_line_is_most_recent(rest, t);
        assert forall|j: int| 0 <= j < rest.len() implies lines[j] == rest[j] by {}
        match latest_at_or_before(rest, t) {
            Some(i) => {
                assert forall|j: int| 0 <= j < lines.len() && lines[j].0 <= t implies lines[j].0
                    <= lines[i].0 by {
                    if j < rest.len() {
                        assert(rest[j].0 <= t);
                    }
                }
            },
            None => {},
        }
    } else if lines.len() > 0 {
        let n = lines.len() - 1;
        assert forall|j: int| 0 <= j < lines.len() && lines[j].0 <= t implies lines[j].0
            <= lines[n].0 by {}
    }
}

/// Later times never pick an earlier line: the index that `current_line`
/// picks does not go down as the time goes up (no line counts as -1).
pub proof fn lemma_current_line_monotonic(lines: Seq<LineView>, t1: u128, t2: u128)
    requires
        t1 <= t2,
    ensures
        match (latest_at_or_before(lines, t1), latest_at_or_before(lines, t2)) {
            (Some(i), Some(j)) => i <= j,
            (Some(_), None) => false,
            _ => true,
        },
    decreases lines.len(),
{
    if lines.len() > 0 {
        lemma_current_line_monotonic(lines.drop_last(), t1, t2);
        lemma_latest_in_range(lines.drop_last(), t1);
        lemma_latest_in_range(lines.drop_last(), t2);
    }
}

/// The index that `latest_at_or_before` picks lies in the sequence.
proof fn lemma_latest_in_range(lines: Seq<LineView>, t: u128)
    ensures
        latest_at_or_before(lines, t) matches Some(i) ==> 0 <= i < lines.len(),
    decreases lines.len(),
{
    if lines.len() > 0 {
        lemma_latest_in_range(lines.drop_last(), t);
    }
}

} // verus!

verus! {

/// An entry occurs in `s` as often as among the entries of `s` at its time.
proof fn lemma_count_at_own_time(s: Seq<LineView>, x: LineView)
    ensures
        s.to_multiset().count(x) == at_time(s, x.0).to_multiset().count(x),
    decreases s.len(),
{
    broadcast use vstd::seq_lib::group_to_multiset_ensures;
    broadcast use vstd::multiset::group_multiset_axioms;

    reveal(Seq::filter);
    if s.len() == 0 {
        assert(at_time(s, x.0) =~= s);
    } else {
        let r = s.drop_last();
        let y = s.last();
        lemma_count_at_own_time(r, x);
        assert(s =~= r.push(y));
        if y.0 == x.0 {
            assert(at_time(s, x.0) == at_time(r, x.0).push(y));
        } else {
            assert(at_time(s, x.0) == at_time(r, x.0));
        }
    }
}

/// Sequences with the same entries at every time hold the same entries.
pub proof fn lemma_same_entries(a: Seq<LineView>, b: Seq<LineView>)
    requires
        forall|t: u128| #[trigger] at_time(a, t) == at_time(b, t),
    ensures
        a.to_multiset() == b.to_multiset(),
{
    assert forall|x: LineView| a.to_multiset().count(x) == b.to_multiset().count(x) by {
        lemma_count_at_own_time(a, x);
        lemma_count_at_own_time(b, x);
        assert(at_time(a, x.0) == at_time(b, x.0));
    }
    assert(a.to_multiset() =~= b.to_multiset());
}

} // verus!

verus! {

/// The path of the lyrics file that goes with an audio file: the same path
/// with the extension `lrc` (e.g. `song.mp3` -> `song.lrc`; a path without an
/// extension gets `.lrc` added).
pub fn lrc_path_for(audio_path: &str) -> (r: String)
    ensures
        crate::paths::plain_file_name(audio_path@) is Some ==> r@
            == crate::paths::with_extension(audio_path@, "lrc"@),
{
    proof {
        reveal_strlit("lrc");
        assert("lrc"@ =~= seq!['l', 'r', 'c']);
        assert(!"lrc"@.contains('/'));
        assert(!"lrc"@.contains('\\'));
    }
    crate::paths::path_with_extension(audio_path, "lrc")
}


/// A piece of text without a line feed is one line: its entries are the
/// entries of that line.
pub proof fn lemma_lrc_single_line(s: Seq<char>)
    requires
        !s.contains('\n'),
    ensures
        lrc_entries(s) == line_entries(s),
{
    crate::text::lemma_find_first(s, '\n', s.len() as int);
    let lines = seq![s];
    assert(split_lines(s) == lines);
    assert(lines.drop_first() =~= Seq::<Seq<char>>::empty());
    assert(entries_of(lines.drop_first()) == Seq::<LineView>::empty());
    assert(entries_of(lines) =~= line_entries(s));
}

/// A line followed by a line feed gives its entries, then come the entries
/// of the rest of the file.
pub proof fn lemma_lrc_next_line(s: Seq<char>, t: Seq<char>)
    requires
        !s.contains('\n'),
    ensures
        lrc_entries(s + seq!['\n'] + t) == line_entries(s) + lrc_entries(t),
{
    let u = s + seq!['\n'] + t;
    assert forall|k: int| 0 <= k < s.len() implies u[k] != '\n' by {
        assert(u[k] == s[k]);
    }
    crate::text::lemma_find_first(u, '\n', s.len() as int);
    assert(u.take(s.len() as int) =~= s);
    assert(u.skip(s.len() as int + 1) =~= t);
    let lines = seq![s] + split_lines(t);
    assert(split_lines(u) == lines);
    assert(lines[0] == s);
    assert(lines.drop_first() =~= split_lines(t));
}

/// A line feed at the end of a file adds nothing: the last line counts
/// whether or not a line feed ends it.
pub proof fn lemma_lrc_trailing_line_feed(s: Seq<char>)
    ensures
        lrc_entries(s + seq!['\n']) == lrc_entries(s),
    decreases s.len(),
{
    let empty = Seq::<char>::empty();
    assert(!empty.contains('\n'));
    lemma_lrc_single_line(empty);
    assert(trim(empty) == empty);
    assert(line_entries(empty) =~= Seq::<LineView>::empty());
    crate::text::lemma_find_first_some(s, '\n');
    match find_first(s, '\n') {
        None => {
            assert(!s.contains('\n'));
            lemma_lrc_next_line(s, empty);
            assert(s + seq!['\n'] + empty =~= s + seq!['\n']);
            lemma_lrc_single_line(s);
            assert(line_entries(s) + Seq::<LineView>::empty() =~= line_entries(s));
        },
        Some(i) => {
            let a = s.take(i);
            let b = s.skip(i + 1);
            assert(!a.contains('\n')) by {
                assert forall|k: int| 0 <= k < a.len() implies a[k] != '\n' by {
                    assert(a[k] == s[k]);
                }
            }
            assert(s =~= a + seq!['\n'] + b);
            assert(s + seq!['\n'] =~= a + seq!['\n'] + (b + seq!['\n']));
            lemma_lrc_next_line(a, b);
            lemma_lrc_next_line(a, b + seq!['\n']);
            lemma_lrc_trailing_line_feed(b);
        },
    }
}

/// A line `[tag]text` whose tag is a timestamp gives exactly one entry: that
/// time with the text (where the text is trimmed already and does not start
/// another tag).
pub proof fn lemma_lrc_timed_line(tag: Seq<char>, text: Seq<char>, t: u128)
    requires
        !tag.contains(']'),
        !tag.contains('\n'),
        !text.contains('\n'),
        spec_parse_timestamp(tag) == Some(t),
        text.len() == 0 || (text[0] != '[' && !crate::text::spec_is_whitespace(text[0])
            && !crate::text::spec_is_whitespace(text.last())),
    ensures
        lrc_entries(seq!['['] + tag + seq![']'] + text) == seq![(t, text)],
{
    let s = seq!['['] + tag + seq![']'] + text;
    let close: int = tag.len() as int + 1;
    assert(!s.contains('\n')) by {
        assert forall|k: int| 0 <= k < s.len() implies s[k] != '\n' by {
            if 1 <= k < close {
                assert(s[k] == tag[k - 1]);
            } else if k > close {
                assert(s[k] == text[k - close - 1]);
            }
        }
    }
    lemma_lrc_single_line(s);
    assert(trim_start(s) == s);
    assert(s.last() == (if text.len() == 0 { ']' } else { text.last() }));
    assert(trim_end(s) == s);
    assert(trim(s) == s);
    assert forall|k: int| 0 <= k < close implies s[k] != ']' by {
        if k >= 1 {
            assert(s[k] == tag[k - 1]);
        }
    }
    crate::text::lemma_find_first(s, ']', close);
    assert(s.subrange(1, close) =~= tag);
    assert(s.skip(close + 1) =~= text);
    assert(leading_tags(text) == (Seq::<u128>::empty(), text));
    assert(leading_tags(s) == (seq![t], text));
    if text.len() > 0 {
        assert(trim_start(text) == text);
        assert(trim_end(text) == text);
    } else {
        assert(trim_start(text) == text);
    }
    assert(trim(text) == text);
    assert(line_entries(s) =~= seq![(t, text)]);
}

} // verus!
