//! The text that the player window shows: elapsed and total times, and the
//! artists of the track.

use vstd::prelude::*;
use crate::text::{decimal, digit_char, push_char, push_decimal};
use crate::track::{strings_view, TrackInfo};

verus! {

/// `secs` as minutes and two-digit seconds, `m:ss`.
pub open spec fn clock_text(secs: nat) -> Seq<char> {
    decimal(secs / 60) + ":"@ + seq![digit_char((secs % 60) / 10), digit_char(secs % 10)]
}

/// The whole seconds in `nanos` nanoseconds, as `Duration::as_secs` gives them.
pub open spec fn whole_seconds(nanos: u128) -> nat {
    (nanos / 1_000_000_000) as nat
}

/// The elapsed time as `m:ss` (whole seconds; minutes are not capped at 59).
pub fn format_time(elapsed_nanos: u128) -> (r: String)
    ensures
        r@ == clock_text(whole_seconds(elapsed_nanos)),
{
    let secs: u128 = elapsed_nanos / 1_000_000_000;
    let mut s = String::new();
    push_decimal(&mut s, secs / 60);
    s.append(":");
    let within: u128 = secs % 60;
    let tens: u8 = (within / 10) as u8;
    let ones: u8 = (secs % 10) as u8;
    push_char(&mut s, (48u8 + tens) as char);
    push_char(&mut s, (48u8 + ones) as char);
    assert(s@ =~= clock_text(secs as nat));
    s
}

/// The time label under the progress bar: `elapsed / total` where the
/// total length is known, else the elapsed time alone.
pub fn time_label(elapsed_nanos: u128, total_nanos: Option<u128>) -> (r: String)
    ensures
        r@ == match total_nanos {
            Some(t) => clock_text(whole_seconds(elapsed_nanos)) + " / "@ + clock_text(
                whole_seconds(t),
            ),
            None => clock_text(whole_seconds(elapsed_nanos)),
        },
{
    let mut s = format_time(elapsed_nanos);
    match total_nanos {
        Some(t) => {
            s.append(" / ");
            let total = format_time(t);
            s.append(total.as_str());
        },
        None => {},
    }
    s
}

/// `parts` joined with `sep` between each two.
pub open spec fn join(parts: Seq<Seq<char>>, sep: Seq<char>) -> Seq<char>
    decreases parts.len(),
{
    if parts.len() == 0 {
        Seq::<char>::empty()
    } else if parts.len() == 1 {
        parts[0]
    } else {
        join(parts.drop_last(), sep) + sep + parts.last()
    }
}

/// The artist line of a track: its artists joined with `, `, or
/// `[no artist tags]` where it has none.
pub open spec fn artists_text(artists: Seq<Seq<char>>) -> Seq<char> {
    if artists.len() == 0 {
        "[no artist tags]"@
    } else {
        join(artists, ", "@)
    }
}

impl TrackInfo {
    /// The artist line shown for the track: its artists joined with `, `,
    /// or `[no artist tags]` where it has none.
    pub fn artists_label(&self) -> (r: String)
        ensures
            r@ == artists_text(strings_view(self.artists@)),
    {
        if self.artists.len() == 0 {
            return String::from_str("[no artist tags]");
        }
        let ghost parts = strings_view(self.artists@);
        let mut s = String::new();
        let mut i: usize = 0;
        while i < self.artists.len()
            invariant
                i <= self.artists.len(),
                parts == strings_view(self.artists@),
                s@ == join(parts.take(i as int), ", "@),
            decreases self.artists.len() - i,
        {
            if i > 0 {
                s.append(", ");
            }
            s.append(self.artists[i].as_str());
            proof {
                let t = parts.take(i + 1);
                assert(t.drop_last() =~= parts.take(i as int));
                if i == 0 {
                    assert(join(parts.take(0), ", "@) =~= Seq::<char>::empty());
                    assert(s@ =~= t[0]);
                } else {
                    assert(s@ =~= join(t, ", "@));
                }
            }
            i += 1;
        }
        assert(parts.take(i as int) =~= parts);
        s
    }
}

} // verus!
