//! Decisions of the result browser: moving the selection through the list of
//! files and changing the number of colors to extract.

use vstd::prelude::*;

verus! {

/// The fewest colors a palette may be asked for.
pub const MIN_COLORS: u8 = 2;

/// The most colors a palette may be asked for.
pub const MAX_COLORS: u8 = 10;

/// The selection after moving down a list of `len` items: the next item,
/// wrapping from the last to the first; the first when nothing is selected;
/// nothing in an empty list.
pub fn next_index(selected: Option<usize>, len: usize) -> (r: Option<usize>)
    ensures
        len == 0 ==> r is None,
        len > 0 ==> r == Some(
            match selected {
                None => 0,
                Some(i) => if i + 1 < len {
                    (i + 1) as usize
                } else {
                    0
                },
            },
        ),
{
    if len == 0 {
        return None;
    }
    match selected {
        None => Some(0),
        Some(i) => if i < len - 1 {
            Some(i + 1)
        } else {
            Some(0)
        },
    }
}

/// The selection after moving up a list of `len` items: the previous item,
/// wrapping from the first to the last; the first when nothing is selected;
/// nothing in an empty list.
pub fn previous_index(selected: Option<usize>, len: usize) -> (r: Option<usize>)
    ensures
        len == 0 ==> r is None,
        len > 0 ==> r == Some(
            match selected {
                None => 0,
                Some(i) => if i == 0 || i > len {
                    (len - 1) as usize
                } else {
                    (i - 1) as usize
                },
            },
        ),
{
    if len == 0 {
        return None;
    }
    match selected {
        None => Some(0),
        Some(i) => if i == 0 || i > len {
            Some(len - 1)
        } else {
            Some(i - 1)
        },
    }
}

/// One more color to extract, up to `MAX_COLORS`.
pub fn increment_nb_extracted_colors(n: u8) -> (r: u8)
    ensures
        r == if n < MAX_COLORS {
            (n + 1) as u8
        } else {
            n
        },
{
    if n < MAX_COLORS {
        n + 1
    } else {
        n
    }
}

/// One color fewer to extract, down to `MIN_COLORS`.
pub fn decrement_nb_extracted_colors(n: u8) -> (r: u8)
    ensures
        r == if n > MIN_COLORS {
            (n - 1) as u8
        } else {
            n
        },
{
    if n > MIN_COLORS {
        n - 1
    } else {
        n
    }
}

/// Whether a palette of `n` colors may be asked for.
pub fn valid_color_count(n: u32) -> (r: bool)
    ensures
        r == (MIN_COLORS <= n <= MAX_COLORS),
{
    MIN_COLORS as u32 <= n && n <= MAX_COLORS as u32
}

/// Starting from a count in range, changing it keeps it in range.
pub proof fn lemma_count_stays_in_range(n: u8)
    requires
        MIN_COLORS <= n <= MAX_COLORS,
    ensures
        MIN_COLORS <= (if n < MAX_COLORS { (n + 1) as u8 } else { n }) <= MAX_COLORS,
        MIN_COLORS <= (if n > MIN_COLORS { (n - 1) as u8 } else { n }) <= MAX_COLORS,
{
}

} // verus!
