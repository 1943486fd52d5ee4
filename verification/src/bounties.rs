//! The decisions behind the bounty pages: which layout fits the pane, when a
//! bounty counts as complete, a bounty's compact line, and the progress bar.

use vstd::prelude::*;

use crate::text::{concat, decimal, push_decimal, string_push, to_string, chars_of};

verus! {

/// How the daily bounties are laid out.
#[derive(Debug, Clone, Copy, PartialEq, Eq, Structural)]
pub enum BountyLayout {
    /// One line per bounty.
    Compact,
    /// A card per bounty, side by side.
    Cards,
}

/// How many columns the cards need; a narrower pane gets compact lines.
pub const BOUNTY_CARDS_MIN_WIDTH: u16 = 90;

/// The layout of the daily bounties in a pane `width` columns wide.
pub fn bounty_layout(width: u16) -> (r: BountyLayout)
    ensures
        r == if width < BOUNTY_CARDS_MIN_WIDTH {
            BountyLayout::Compact
        } else {
            BountyLayout::Cards
        },
{
    if width < BOUNTY_CARDS_MIN_WIDTH {
        BountyLayout::Compact
    } else {
        BountyLayout::Cards
    }
}

/// A bounty is complete exactly when its progress has reached its target.
pub fn bounty_complete(progress: u32, target: u32) -> (r: bool)
    ensures
        r == (progress == target),
{
    progress == target
}

/// `s` padded with spaces on the right to at least `width` characters.
pub open spec fn padded(s: Seq<char>, width: nat) -> Seq<char> {
    if s.len() >= width {
        s
    } else {
        s + Seq::new((width - s.len()) as nat, |i: int| ' ')
    }
}

/// The compact line of a bounty: its mark, its title padded to 22 columns,
/// its progress against its target, and its reward.
pub open spec fn spec_compact_bounty_line(title: Seq<char>, progress: u32, target: u32, reward: Seq<char>) -> Seq<char> {
    (if progress == target {
        "✓"@
    } else {
        "○"@
    }) + " "@ + padded(title, 22) + " "@ + decimal(progress as nat) + "/"@ + decimal(target as nat)
        + "  "@ + reward
}

/// Pad `out` with spaces until it holds `width` characters.
fn pad_to(out: &mut String, width: usize)
    ensures
        final(out)@ == padded(old(out)@, width as nat),
{
    let len = chars_of(out.as_str()).len();
    if len >= width {
        return;
    }
    let ghost start = out@;
    let mut n = len;
    while n < width
        invariant
            len <= n <= width,
            start.len() == len,
            out@ == start + Seq::new((n - len) as nat, |i: int| ' '),
        decreases width - n,
    {
        string_push(out, ' ');
        assert(out@ =~= start + Seq::new((n + 1 - len) as nat, |i: int| ' '));
        n += 1;
    }
}

/// The compact line of one bounty.
pub fn compact_bounty_line(title: &str, progress: u32, target: u32, reward: &str) -> (r: String)
    ensures
        r@ == spec_compact_bounty_line(title@, progress, target, reward@),
{
    let mark = if progress == target {
        "✓"
    } else {
        "○"
    };
    let mut t = to_string(title);
    pad_to(&mut t, 22);
    let a = concat(mark, " ");
    let b = concat(a.as_str(), t.as_str());
    let mut c = concat(b.as_str(), " ");
    push_decimal(&mut c, progress as usize);
    let d = concat(c.as_str(), "/");
    let mut e = d;
    push_decimal(&mut e, target as usize);
    let f = concat(e.as_str(), "  ");
    concat(f.as_str(), reward)
}

/// The progress bar of a pane `width` columns wide, for `claimed` of
/// `available` points: its length (the pane less 40 columns, kept between 8
/// and 32), and how much of it is filled.
pub open spec fn spec_progress_bar(width: int, claimed: int, available: int) -> (int, int) {
    let room = if width > 40 {
        width - 40
    } else {
        0
    };
    let len = if room < 8 {
        8
    } else if room > 32 {
        32
    } else {
        room
    };
    (len, len * claimed / available)
}

/// The progress bar's length and filled part.
pub fn progress_bar(width: u16, claimed: u32, available: u32) -> (r: (usize, usize))
    requires
        available > 0,
        claimed <= available,
    ensures
        r.0 == spec_progress_bar(width as int, claimed as int, available as int).0,
        r.1 == spec_progress_bar(width as int, claimed as int, available as int).1,
        r.1 <= r.0,
{
    let room: usize = if width > 40 {
        (width - 40) as usize
    } else {
        0
    };
    let len: usize = if room < 8 {
        8
    } else if room > 32 {
        32
    } else {
        room
    };
    assert(len <= 32);
    assert(len * claimed <= 32 * 0xffff_ffffint) by (nonlinear_arith)
        requires
            len <= 32,
            claimed <= 0xffff_ffff,
    ;
    let product: u64 = len as u64 * claimed as u64;
    proof {
        assert(len * claimed <= len * available) by (nonlinear_arith)
            requires
                claimed <= available,
        ;
        assert((len * claimed) / (available as int) <= len) by (nonlinear_arith)
            requires
                len * claimed <= len * available,
                available > 0,
        ;
    }
    let filled = (product / available as u64) as usize;
    (len, filled)
}


/// The heading of a bounty's card: complete exactly at its target.
pub fn card_marker(progress: u32, target: u32) -> (r: &'static str)
    ensures
        progress == target ==> r@ == "✓ COMPLETE"@,
        progress != target ==> r@ == "○ IN PROGRESS"@,
{
    if progress == target {
        "✓ COMPLETE"
    } else {
        "○ IN PROGRESS"
    }
}

/// The foot of a bounty's card: its reward, then its progress against its
/// target.
pub fn card_progress(reward: &str, progress: u32, target: u32) -> (r: String)
    ensures
        r@ == reward@ + "  "@ + decimal(progress as nat) + "/"@ + decimal(target as nat),
{
    let mut a = concat(reward, "  ");
    push_decimal(&mut a, progress as usize);
    let mut b = concat(a.as_str(), "/");
    push_decimal(&mut b, target as usize);
    b
}
} // verus!
