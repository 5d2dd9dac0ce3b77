use std::time::{SystemTime, UNIX_EPOCH};
use vstd::prelude::*;

use crate::app::{BottomPanel, SortMode};
use crate::text::{decimal, format_size, human_size, pad_left, right_aligned, to_decimal, truncate, truncated};

verus! {

/// Reads the system clock, in nanoseconds since the Unix epoch; `None` for a
/// clock set before the epoch. The reading depends on the clock, so nothing
/// is stated of it.
#[verifier::external_body]
fn now_nanos() -> Option<u128> {
    match SystemTime::now().duration_since(UNIX_EPOCH) {
        Ok(d) => Some(d.as_nanos()),
        Err(_) => None,
    }
}

/// Seconds in a day.
pub const DAY_SECS: u64 = 86400;

/// How long ago something happened, `secs` seconds back, in a few
/// characters: "just now", then minutes, hours, days, 30-day months and
/// 365-day years, each rounded down.
pub open spec fn age_text(secs: nat) -> Seq<char> {
    if secs < 60 {
        "just now"@
    } else if secs < 3600 {
        decimal(secs / 60) + "m ago"@
    } else if secs < 86400 {
        decimal(secs / 3600) + "h ago"@
    } else if secs < 86400 * 30 {
        decimal(secs / 86400) + "d ago"@
    } else if secs < 86400 * 365 {
        decimal(secs / (86400 * 30)) + "mo ago"@
    } else {
        decimal(secs / (86400 * 365)) + "y ago"@
    }
}

/// The age of something `secs` seconds old.
pub fn age_label(secs: u64) -> (s: String)
    ensures
        s@ == age_text(secs as nat),
{
    let (n, unit) = if secs < 60 {
        return String::from_str("just now");
    } else if secs < 3600 {
        (secs / 60, "m ago")
    } else if secs < DAY_SECS {
        (secs / 3600, "h ago")
    } else if secs < DAY_SECS * 30 {
        (secs / DAY_SECS, "d ago")
    } else if secs < DAY_SECS * 365 {
        (secs / (DAY_SECS * 30), "mo ago")
    } else {
        (secs / (DAY_SECS * 365), "y ago")
    };
    let mut s = to_decimal(n);
    s.append(unit);
    s
}

/// Whole seconds from `modified` to `now` (nanoseconds since the epoch);
/// zero when `modified` is later, and at most `u64::MAX`.
pub open spec fn seconds_between(modified: u128, now: u128) -> nat {
    if now <= modified {
        0
    } else if (now - modified) / 1_000_000_000 > u64::MAX {
        u64::MAX as nat
    } else {
        ((now - modified) / 1_000_000_000) as nat
    }
}

/// Ages count whole seconds in nanosecond readings: a reading `k` whole
/// seconds (and less than one more) after the modification time is `k`
/// seconds old, and a reading not after it is no age at all.
pub proof fn lemma_age_counts_whole_seconds(modified: u128, k: u64, extra: u128, now: u128)
    requires
        extra < 1_000_000_000,
        now == modified + k * 1_000_000_000 + extra,
    ensures
        now > modified ==> seconds_between(modified, now) == k,
        now <= modified ==> seconds_between(modified, now) == 0,
{
    assert((k * 1_000_000_000 + extra) / 1_000_000_000 == k) by (nonlinear_arith)
        requires
            extra < 1_000_000_000,
            k >= 0,
            extra >= 0,
    ;
}

/// The age of a modification time as seen at `now`.
pub fn age_at(modified: u128, now: u128) -> (s: String)
    ensures
        s@ == age_text(seconds_between(modified, now)),
{
    let secs: u64 = if now <= modified {
        0
    } else {
        let d = (now - modified) / 1_000_000_000;
        if d > u64::MAX as u128 {
            u64::MAX
        } else {
            d as u64
        }
    };
    age_label(secs)
}

/// `r` is a reading that the system clock can hand to this library: what
/// the reading of the clock returned on some call.
pub closed spec fn clock_read(r: Option<u128>) -> bool {
    call_ensures(now_nanos, (), r)
}

/// The time a clock reading stands for, in nanoseconds since the epoch: a
/// clock set before the epoch is read as the epoch itself.
pub open spec fn reading_or_epoch(r: Option<u128>) -> u128 {
    match r {
        Some(now) => now,
        None => 0,
    }
}

/// The age of a modification time, by the clock: the age at the reading that
/// the call takes from the system clock. Times are counted from the epoch, so
/// a clock set before it is read as the epoch itself.
pub fn format_age(modified: u128) -> (s: String)
    ensures
        exists|r: Option<u128>|
            clock_read(r) && s@ == age_text(seconds_between(modified, reading_or_epoch(r))),
{
    let r = now_nanos();
    proof {
        assert(clock_read(r));
    }
    match r {
        Some(now) => age_at(modified, now),
        None => age_at(modified, 0),
    }
}

/// How a sort order is named in the title.
pub open spec fn sort_text(m: SortMode) -> Seq<char> {
    match m {
        SortMode::Size => "size"@,
        SortMode::Name => "name"@,
        SortMode::Modified => "modified"@,
    }
}

/// How a panel is named in the title.
pub open spec fn panel_text(p: BottomPanel) -> Seq<char> {
    match p {
        BottomPanel::Treemap => "map"@,
        BottomPanel::Types => "types"@,
    }
}

/// The title of the header box.
pub open spec fn title_text(m: SortMode, p: BottomPanel) -> Seq<char> {
    " Kenshi — sorted by "@ + sort_text(m) + " — panel: "@ + panel_text(p) + " "@
}

/// The title of the header box, naming the sort order and the panel.
pub fn header_title(mode: SortMode, panel: BottomPanel) -> (s: String)
    ensures
        s@ == title_text(mode, panel),
{
    let mut s = String::from_str(" Kenshi — sorted by ");
    s.append(
        match mode {
            SortMode::Size => "size",
            SortMode::Name => "name",
            SortMode::Modified => "modified",
        },
    );
    s.append(" — panel: ");
    s.append(
        match panel {
            BottomPanel::Treemap => "map",
            BottomPanel::Types => "types",
        },
    );
    s.append(" ");
    s
}

/// The header line: where the browser is, how many entries it lists and
/// their total size.
pub open spec fn header_line(crumbs: Seq<char>, items: u64, size: u64) -> Seq<char> {
    " "@ + crumbs + "    "@ + decimal(items as nat) + " item(s)    "@ + human_size(size) + " total "@
}

/// The header line for the directory at `crumbs`, listing `items` entries
/// of `size` bytes in all.
pub fn header_text(crumbs: &str, items: u64, size: u64) -> (s: String)
    ensures
        s@ == header_line(crumbs@, items, size),
{
    let mut s = String::from_str(" ");
    s.append(crumbs);
    s.append("    ");
    let n = to_decimal(items);
    s.append(n.as_str());
    s.append(" item(s)    ");
    let h = format_size(size);
    s.append(h.as_str());
    s.append(" total ");
    s
}

/// The key help shown at the bottom.
pub open spec fn key_help() -> Seq<char> {
    "↑/↓ move · →/Enter open · ←/Backspace up · s sort · Tab/t panel · r rescan · q quit"@
}

/// The footer line: the key help, then the status message when there is one.
pub open spec fn footer_line(status: Option<Seq<char>>) -> Seq<char> {
    match status {
        Some(msg) => key_help() + "   |   "@ + msg,
        None => key_help(),
    }
}

/// The footer line for the given status message.
pub fn footer_text(status: &Option<String>) -> (s: String)
    ensures
        s@ == footer_line(
            match status {
                Some(m) => Some(m@),
                None => None,
            },
        ),
{
    let mut s = String::from_str("↑/↓ move · →/Enter open · ←/Backspace up · s sort · Tab/t panel · r rescan · q quit");
    match status {
        Some(m) => {
            s.append("   |   ");
            s.append(m.as_str());
        },
        None => {},
    }
    s
}

/// What an empty listing says.
pub open spec fn empty_text(readable: bool) -> Seq<char> {
    if readable {
        "(empty directory)"@
    } else {
        "(permission denied)"@
    }
}

/// The message shown in place of an empty listing.
pub fn empty_listing_message(readable: bool) -> (s: &'static str)
    ensures
        s@ == empty_text(readable),
{
    if readable {
        "(empty directory)"
    } else {
        "(permission denied)"
    }
}

/// The size column of a row: the human-readable size right-aligned in ten
/// characters, then a space.
pub fn size_column(bytes: u64) -> (s: String)
    ensures
        s@ == right_aligned(human_size(bytes), 10) + " "@,
{
    let h = format_size(bytes);
    let mut s = pad_left(h.as_str(), 10);
    s.append(" ");
    s
}

/// Width of the usage bar, in characters.
pub const BAR_WIDTH: usize = 18;

/// A usage bar with `filled` of its cells set.
pub open spec fn bar_text(filled: nat) -> Seq<char> {
    let f = if filled > BAR_WIDTH { BAR_WIDTH as nat } else { filled };
    Seq::new(f, |i: int| '#') + Seq::new((BAR_WIDTH - f) as nat, |i: int| '-')
}

/// The usage bar: `filled` cells of '#' (at most the width), then '-'.
pub fn usage_bar(filled: usize) -> (s: String)
    ensures
        s@ == bar_text(filled as nat),
{
    let f = if filled > BAR_WIDTH { BAR_WIDTH } else { filled };
    let mut s = String::new();
    let mut i: usize = 0;
    while i < BAR_WIDTH
        invariant
            i <= BAR_WIDTH,
            f <= BAR_WIDTH,
            s@ =~= Seq::new(if i <= f { i as nat } else { f as nat }, |k: int| '#') + Seq::new(
                if i <= f { 0 } else { (i - f) as nat },
                |k: int| '-',
            ),
        decreases BAR_WIDTH - i,
    {
        if i < f {
            crate::text::push_char(&mut s, '#');
        } else {
            crate::text::push_char(&mut s, '-');
        }
        i = i + 1;
    }
    s
}

/// The label of a treemap cell `width` by `height`: name and size on two
/// lines when it is at least 4 by 2, the name alone when at least 3 by 1,
/// nothing otherwise; each line cut to the width.
pub open spec fn cell_text(name: Seq<char>, size: u64, width: u16, height: u16) -> Seq<char> {
    if height >= 2 && width >= 4 {
        truncated(name, width as nat) + "\n"@ + truncated(human_size(size), width as nat)
    } else if height >= 1 && width >= 3 {
        truncated(name, width as nat)
    } else {
        Seq::empty()
    }
}

/// The label drawn in a treemap cell.
pub fn map_label(name: &str, size: u64, width: u16, height: u16) -> (s: String)
    ensures
        s@ == cell_text(name@, size, width, height),
{
    if height >= 2 && width >= 4 {
        let mut s = truncate(name, width as usize);
        s.append("\n");
        let h = format_size(size);
        let t = truncate(h.as_str(), width as usize);
        s.append(t.as_str());
        s
    } else if height >= 1 && width >= 3 {
        truncate(name, width as usize)
    } else {
        String::new()
    }
}

/// The number of files in a legend row.
pub fn file_count_label(count: u64) -> (s: String)
    ensures
        s@ == decimal(count as nat) + " file(s)"@,
{
    let mut s = to_decimal(count);
    s.append(" file(s)");
    s
}

} // verus!
