//! Dimension inference and validation for an ASCII box net, and extraction of
//! the six face letter lists of a room.
//!
//! A room body is a sequence of text lines forming the unfolded net of a box:
//! a top band of `depth` rows of width `width`, a middle band of `height` rows
//! of width `2*width + 2*depth` holding the four side faces, and a bottom band
//! of `depth` rows of width `width`. The width is the length of the first
//! line; the depth is the index of the first later line that begins with the
//! border glyph `+`; the height is what remains of the row count. A net is
//! accepted only if twice the sum of the three face-pair areas equals the
//! total character count of all lines, an area checksum that a well-formed
//! unfolded box always meets.

use vstd::prelude::*;

use crate::grid::Letter;
use crate::grid::get_letters_in_ascii_grid;
use crate::grid::window_letters;

verus! {

/// The dimensions of a box inferred from its net.
#[derive(Clone, Copy, Debug, PartialEq, Eq, Structural)]
pub struct Dims {
    /// Cells along the horizontal axis of the front face.
    pub width: usize,
    /// Cells along the axis pointing away from the viewer.
    pub depth: usize,
    /// Cells along the vertical axis.
    pub height: usize,
}

/// Why a room body was rejected as a box net.
#[derive(Clone, Copy, Debug, PartialEq, Eq, Structural)]
pub enum NetError {
    /// The body has no lines at all.
    EmptyGrid,
    /// No line after the first begins with the border glyph `+`.
    MissingBorder,
    /// The rows cannot hold two bands of the inferred depth.
    TooFewLines,
    /// Twice the sum of the three face-pair areas differs from the total
    /// character count.
    ChecksumMismatch,
    /// A row is shorter than the band it lies in requires.
    RaggedGrid,
}

/// Whether a line begins with the border glyph `+`.
pub open spec fn starts_with_border(line: Seq<char>) -> bool {
    line.len() > 0 && line[0] == '+'
}

/// The index of the first line at position `i` or later (but never the very
/// first line) that begins with the border glyph.
pub open spec fn find_border_from(lines: Seq<Seq<char>>, i: int) -> Option<int>
    decreases lines.len() - i,
{
    if i < 1 || i >= lines.len() {
        None
    } else if starts_with_border(lines[i]) {
        Some(i)
    } else {
        find_border_from(lines, i + 1)
    }
}

/// The number of characters in the first `n` lines.
pub open spec fn total_chars_upto(lines: Seq<Seq<char>>, n: int) -> int
    decreases n,
{
    if n <= 0 {
        0
    } else {
        total_chars_upto(lines, n - 1) + lines[n - 1].len()
    }
}

/// The number of characters in all lines together: the character count of the
/// body with the line breaks removed.
pub open spec fn total_chars(lines: Seq<Seq<char>>) -> int {
    total_chars_upto(lines, lines.len() as int)
}

/// The dimensions read off the shape of the lines alone, before the checksum:
/// width from the first line, depth from the first border line, height from
/// the remaining row count. `None` when there is no first line, no border
/// line, or too few rows for two depth bands.
pub open spec fn net_structure(lines: Seq<Seq<char>>) -> Option<(int, int, int)> {
    if lines.len() == 0 {
        None
    } else {
        match find_border_from(lines, 1) {
            None => None,
            Some(d) => {
                if lines.len() < 2 * d {
                    None
                } else {
                    Some((lines[0].len() as int, d, lines.len() - 2 * d))
                }
            },
        }
    }
}

/// Whether the area checksum of a `w` by `d` by `h` box holds for these
/// lines: twice the sum of the three face-pair areas equals the total
/// character count.
pub open spec fn checksum_ok(lines: Seq<Seq<char>>, w: int, d: int, h: int) -> bool {
    2 * (w * d + w * h + d * h) == total_chars(lines)
}

/// The dimensions of the net, or `None` when the shape cannot be read or the
/// area checksum fails.
pub open spec fn net_dims(lines: Seq<Seq<char>>) -> Option<(int, int, int)> {
    match net_structure(lines) {
        None => None,
        Some((w, d, h)) => {
            if checksum_ok(lines, w, d, h) {
                Some((w, d, h))
            } else {
                None
            }
        },
    }
}

/// The least length row `i` of a net with these dimensions may have: the
/// middle band is `2*w + 2*d` wide, the top and bottom bands `w`.
pub open spec fn band_min_len(i: int, w: int, d: int, h: int) -> int {
    if d <= i < d + h {
        2 * w + 2 * d
    } else {
        w
    }
}

/// Whether every row is at least as long as its band requires, so that all
/// six face windows lie inside the grid.
pub open spec fn bands_ok(lines: Seq<Seq<char>>, w: int, d: int, h: int) -> bool {
    forall|i: int|
        0 <= i < lines.len() ==> lines[i].len() >= #[trigger] band_min_len(i, w, d, h)
}

/// The condition under which dimension inference reports this error; the
/// conditions of the variants are mutually exclusive.
pub open spec fn dim_error_cond(e: NetError, lines: Seq<Seq<char>>) -> bool {
    match e {
        NetError::EmptyGrid => lines.len() == 0,
        NetError::MissingBorder => lines.len() > 0 && find_border_from(lines, 1) is None,
        NetError::TooFewLines => lines.len() > 0 && find_border_from(lines, 1) is Some
            && net_structure(lines) is None,
        NetError::ChecksumMismatch => net_structure(lines) is Some && net_dims(lines) is None,
        NetError::RaggedGrid => false,
    }
}

/// Whether an executable line begins with the border glyph; agrees with
/// [`starts_with_border`].
pub fn line_starts_with_border(line: &Vec<char>) -> (r: bool)
    ensures
        r == starts_with_border(line@),
{
    line.len() > 0 && line[0] == '+'
}

/// If no line in `[j, lines.len())` begins with the border glyph, the search
/// from `j` finds none.
proof fn lemma_border_none(lines: Seq<Seq<char>>, j: int)
    requires
        1 <= j,
        forall|k: int| j <= k < lines.len() ==> !starts_with_border(#[trigger] lines[k]),
    ensures
        find_border_from(lines, j) is None,
    decreases lines.len() - j,
{
    if j < lines.len() {
        lemma_border_none(lines, j + 1);
    }
}

/// If line `i` begins with the border glyph and no line in `[j, i)` does, the
/// search from `j` finds exactly `i`.
proof fn lemma_border_found(lines: Seq<Seq<char>>, j: int, i: int)
    requires
        1 <= j <= i < lines.len(),
        starts_with_border(lines[i]),
        forall|k: int| j <= k < i ==> !starts_with_border(#[trigger] lines[k]),
    ensures
        find_border_from(lines, j) == Some(i),
    decreases i - j,
{
    if j < i {
        lemma_border_found(lines, j + 1, i);
    }
}

/// The index of the first line after the first that begins with the border
/// glyph, if any.
fn find_border(lines: &Vec<Vec<char>>) -> (r: Option<usize>)
    ensures
        match r {
            Some(i) => find_border_from(lines.deep_view(), 1) == Some(i as int),
            None => find_border_from(lines.deep_view(), 1) is None,
        },
{
    let ghost ls = lines.deep_view();
    let n: usize = lines.len();
    let mut i: usize = 1;
    while i < n
        invariant
            1 <= i,
            n == ls.len(),
            ls == lines.deep_view(),
            forall|k: int| 1 <= k < i ==> !starts_with_border(#[trigger] ls[k]),
        decreases n - i,
    {
        if line_starts_with_border(&lines[i]) {
            proof {
                assert(ls[i as int] == lines@[i as int]@);
                lemma_border_found(ls, 1, i as int);
            }
            return Some(i);
        }
        proof {
            assert(ls[i as int] == lines@[i as int]@);
        }
        i = i + 1;
    }
    proof {
        lemma_border_none(ls, 1);
    }
    None
}

/// The total character count of all lines, exact even for the largest grids.
fn count_total_chars(lines: &Vec<Vec<char>>) -> (total: u128)
    ensures
        total == total_chars(lines.deep_view()),
{
    let ghost ls = lines.deep_view();
    let n: usize = lines.len();
    let mut total: u128 = 0;
    let mut k: usize = 0;
    while k < n
        invariant
            k <= n,
            n == ls.len(),
            ls == lines.deep_view(),
            total == total_chars_upto(ls, k as int),
            total <= (k as int) * 0xFFFF_FFFF_FFFF_FFFFu64,
        decreases n - k,
    {
        let l: usize = lines[k].len();
        proof {
            assert(ls[k as int] == lines@[k as int]@);
            assert(l <= 0xFFFF_FFFF_FFFF_FFFFu64);
            assert((k as int) * 0xFFFF_FFFF_FFFF_FFFFu64 + 0xFFFF_FFFF_FFFF_FFFFu64 == (k as int
                + 1) * 0xFFFF_FFFF_FFFF_FFFFu64) by (nonlinear_arith);
            assert((k as int + 1) * 0xFFFF_FFFF_FFFF_FFFFu64 <= (n as int)
                * 0xFFFF_FFFF_FFFF_FFFFu64) by (nonlinear_arith)
                requires
                    k as int + 1 <= n as int,
            ;
            assert((n as int) * 0xFFFF_FFFF_FFFF_FFFFu64 < u128::MAX) by (nonlinear_arith)
                requires
                    n as int <= 0xFFFF_FFFF_FFFF_FFFFu64,
            ;
        }
        total = total + (l as u128);
        k = k + 1;
    }
    total
}

/// Reads the box dimensions off a room body and validates the area checksum.
///
/// Returns the dimensions exactly when [`net_dims`] accepts the lines; each
/// error names the first condition that failed, as [`dim_error_cond`] states.
pub fn infer_dimensions(lines: &Vec<Vec<char>>) -> (r: Result<Dims, NetError>)
    ensures
        ({
            let ls = lines.deep_view();
            match r {
                Ok(dims) => net_dims(ls) == Some(
                    (dims.width as int, dims.depth as int, dims.height as int),
                ),
                Err(e) => net_dims(ls) is None && dim_error_cond(e, ls),
            }
        }),
{
    let ghost ls = lines.deep_view();
    let n: usize = lines.len();
    if n == 0 {
        return Err(NetError::EmptyGrid);
    }
    let width: usize = lines[0].len();
    proof {
        assert(ls[0] == lines@[0]@);
    }
    let depth: usize = match find_border(lines) {
        Some(d) => d,
        None => {
            return Err(NetError::MissingBorder);
        },
    };
    proof {
        vstd::arithmetic::div_mod::lemma_fundamental_div_mod(n as int, 2);
    }
    if depth > n / 2 {
        return Err(NetError::TooFewLines);
    }
    let height: usize = n - 2 * depth;
    let total: u128 = count_total_chars(lines);
    proof {
        assert(net_structure(ls) == Some((width as int, depth as int, height as int)));
        vstd::arithmetic::div_mod::lemma_fundamental_div_mod(total as int, 2);
        let m: int = 0xFFFF_FFFF_FFFF_FFFFu64 as int;
        vstd::arithmetic::mul::lemma_mul_upper_bound(width as int, m, depth as int, m);
        vstd::arithmetic::mul::lemma_mul_upper_bound(width as int, m, height as int, m);
        vstd::arithmetic::mul::lemma_mul_upper_bound(depth as int, m, height as int, m);
        assert(m * m < u128::MAX) by (nonlinear_arith)
            requires
                m == 0xFFFF_FFFF_FFFF_FFFFu64 as int,
        ;
    }
    if total % 2 != 0 {
        return Err(NetError::ChecksumMismatch);
    }
    let half: u128 = total / 2;
    let wd: u128 = (width as u128) * (depth as u128);
    let wh: u128 = (width as u128) * (height as u128);
    let dh: u128 = (depth as u128) * (height as u128);
    if wd > half {
        return Err(NetError::ChecksumMismatch);
    }
    let r1: u128 = half - wd;
    if wh > r1 {
        return Err(NetError::ChecksumMismatch);
    }
    let r2: u128 = r1 - wh;
    if dh != r2 {
        return Err(NetError::ChecksumMismatch);
    }
    assert(checksum_ok(ls, width as int, depth as int, height as int));
    Ok(Dims { width, depth, height })
}

/// A parsed room: the box dimensions and the labelled cells of its six faces,
/// each as triples of local column, local row and character in reading order.
#[derive(Debug)]
pub struct Room {
    /// Cells along the horizontal axis of the front face.
    pub width: usize,
    /// Cells along the axis pointing away from the viewer.
    pub depth: usize,
    /// Cells along the vertical axis.
    pub height: usize,
    /// Letters of the top face.
    pub top: Vec<Letter>,
    /// Letters of the back face.
    pub back: Vec<Letter>,
    /// Letters of the right face.
    pub right: Vec<Letter>,
    /// Letters of the front face.
    pub front: Vec<Letter>,
    /// Letters of the left face.
    pub left: Vec<Letter>,
    /// Letters of the floor face.
    pub floor: Vec<Letter>,
}

/// Whether a parsed room holds exactly the six face letter lists that the
/// windows of the unfolded net prescribe for its dimensions: the top face
/// above the middle band, then back, right, front and left tiling the middle
/// band left to right, and the floor below.
pub open spec fn room_faces_ok(room: Room, lines: Seq<Seq<char>>) -> bool {
    let w: int = room.width as int;
    let d: int = room.depth as int;
    let h: int = room.height as int;
    &&& room.top@ == window_letters(lines, 0, 0, w, d)
    &&& room.back@ == window_letters(lines, 0, d, w, h)
    &&& room.right@ == window_letters(lines, w, d, d, h)
    &&& room.front@ == window_letters(lines, w + d, d, w, h)
    &&& room.left@ == window_letters(lines, 2 * w + d, d, d, h)
    &&& room.floor@ == window_letters(lines, 0, d + h, w, d)
}

/// Whether a parsed room is the one these lines describe: the dimensions pass
/// inference and the checksum, every row reaches across its band, and the six
/// face letter lists are the ones of the net's windows.
pub open spec fn room_ok_cond(room: Room, lines: Seq<Seq<char>>) -> bool {
    &&& net_dims(lines) == Some((room.width as int, room.depth as int, room.height as int))
    &&& bands_ok(lines, room.width as int, room.depth as int, room.height as int)
    &&& room_faces_ok(room, lines)
}

/// Whether these lines are accepted as a room at all: the dimensions can be
/// read, the checksum holds, and every row reaches across its band.
pub open spec fn net_accepted(lines: Seq<Seq<char>>) -> bool {
    net_dims(lines) matches Some(t) && bands_ok(lines, t.0, t.1, t.2)
}

/// The condition under which parsing a room body reports this error; the
/// conditions of the variants are mutually exclusive.
pub open spec fn parse_error_cond(e: NetError, lines: Seq<Seq<char>>) -> bool {
    if e == NetError::RaggedGrid {
        net_dims(lines) matches Some(t) && !bands_ok(lines, t.0, t.1, t.2)
    } else {
        net_dims(lines) is None && dim_error_cond(e, lines)
    }
}

/// Parses a room body: infers and validates the box dimensions, checks that
/// every row reaches across its band, and extracts the letters of the six
/// faces.
pub fn parse_room(lines: &Vec<Vec<char>>) -> (r: Result<Room, NetError>)
    ensures
        ({
            let ls = lines.deep_view();
            match r {
                Ok(room) => room_ok_cond(room, ls),
                Err(e) => parse_error_cond(e, ls),
            }
        }),
{
    let ghost ls = lines.deep_view();
    let dims: Dims = match infer_dimensions(lines) {
        Ok(d) => d,
        Err(e) => {
            return Err(e);
        },
    };
    let width: usize = dims.width;
    let depth: usize = dims.depth;
    let height: usize = dims.height;
    let n: usize = lines.len();
    assert(n == 2 * depth + height);

    // Every row must reach across its band, else a face window would leave
    // the grid.
    let mut i: usize = 0;
    while i < n
        invariant
            i <= n,
            n == ls.len(),
            ls == lines.deep_view(),
            net_dims(ls) == Some((width as int, depth as int, height as int)),
            forall|k: int|
                0 <= k < i ==> ls[k].len() >= #[trigger] band_min_len(
                    k,
                    width as int,
                    depth as int,
                    height as int,
                ),
        decreases n - i,
    {
        let need: u128 = if depth <= i && i < depth + height {
            2 * (width as u128) + 2 * (depth as u128)
        } else {
            width as u128
        };
        let l: usize = lines[i].len();
        proof {
            assert(ls[i as int] == lines@[i as int]@);
        }
        if (l as u128) < need {
            proof {
                assert(ls[i as int].len() < band_min_len(
                    i as int,
                    width as int,
                    depth as int,
                    height as int,
                ));
            }
            return Err(NetError::RaggedGrid);
        }
        i = i + 1;
    }
    assert(bands_ok(ls, width as int, depth as int, height as int));
    proof {
        assert forall|k: int| 0 <= k < n as int implies #[trigger] lines@[k]@.len()
            >= band_min_len(k, width as int, depth as int, height as int) by {
            assert(ls[k] == lines@[k]@);
        }
    }

    let top: Vec<Letter> = get_letters_in_ascii_grid(lines, 0, 0, width, depth);
    let floor_y: usize = depth + height;
    let floor: Vec<Letter> = get_letters_in_ascii_grid(lines, 0, floor_y, width, depth);
    let mut back: Vec<Letter> = Vec::new();
    let mut right: Vec<Letter> = Vec::new();
    let mut front: Vec<Letter> = Vec::new();
    let mut left: Vec<Letter> = Vec::new();
    if height > 0 {
        // The first middle row reaches across the whole middle band, so the
        // column offsets of the four side faces fit in a row index.
        let mid_len: usize = lines[depth].len();
        proof {
            assert(ls[depth as int] == lines@[depth as int]@);
            assert(band_min_len(depth as int, width as int, depth as int, height as int) == 2 * (
            width as int) + 2 * (depth as int));
            assert(2 * (width as int) + 2 * (depth as int) <= mid_len as int);
        }
        back = get_letters_in_ascii_grid(lines, 0, depth, width, height);
        right = get_letters_in_ascii_grid(lines, width, depth, depth, height);
        front = get_letters_in_ascii_grid(lines, width + depth, depth, width, height);
        left = get_letters_in_ascii_grid(lines, 2 * width + depth, depth, depth, height);
    } else {
        proof {
            assert(back@ =~= window_letters(ls, 0, depth as int, width as int, 0));
            assert(right@ =~= window_letters(ls, width as int, depth as int, depth as int, 0));
            assert(front@ =~= window_letters(
                ls,
                width as int + depth as int,
                depth as int,
                width as int,
                0,
            ));
            assert(left@ =~= window_letters(
                ls,
                2 * width as int + depth as int,
                depth as int,
                depth as int,
                0,
            ));
        }
    }
    Ok(Room { width, depth, height, top, back, right, front, left, floor })
}

/// Whether every row has exactly the width of its band: a rectangular net of
/// a `w` by `d` by `h` box.
pub open spec fn bands_exact(lines: Seq<Seq<char>>, w: int, d: int, h: int) -> bool {
    forall|i: int| 0 <= i < lines.len() ==> lines[i].len() == #[trigger] band_min_len(i, w, d, h)
}

/// The character count of the first `k` rows of a rectangular net, band by
/// band.
proof fn lemma_band_total(lines: Seq<Seq<char>>, w: int, d: int, h: int, k: int)
    requires
        0 <= w,
        0 <= d,
        0 <= h,
        lines.len() == 2 * d + h,
        bands_exact(lines, w, d, h),
        0 <= k <= lines.len(),
    ensures
        total_chars_upto(lines, k) == if k <= d {
            k * w
        } else if k <= d + h {
            d * w + (k - d) * (2 * w + 2 * d)
        } else {
            d * w + h * (2 * w + 2 * d) + (k - d - h) * w
        },
    decreases k,
{
    if k > 0 {
        lemma_band_total(lines, w, d, h, k - 1);
        assert(total_chars_upto(lines, k) == total_chars_upto(lines, k - 1) + lines[k - 1].len());
        assert(lines[k - 1].len() == band_min_len(k - 1, w, d, h));
        vstd::arithmetic::mul::lemma_mul_basics(w);
        vstd::arithmetic::mul::lemma_mul_basics(2 * w + 2 * d);
        if k - 1 < d {
            assert((k - 1) * w + w == k * w) by (nonlinear_arith);
        } else if k - 1 < d + h {
            assert(band_min_len(k - 1, w, d, h) == 2 * w + 2 * d);
            assert((k - 1 - d) * (2 * w + 2 * d) + (2 * w + 2 * d) == (k - d) * (2 * w + 2 * d))
                by (nonlinear_arith);
        } else {
            assert(band_min_len(k - 1, w, d, h) == w);
            assert((k - 1 - d - h) * w + w == (k - d - h) * w) by (nonlinear_arith);
            assert(h == 0 ==> h * (2 * w + 2 * d) == 0) by (nonlinear_arith);
        }
    }
}

/// Law: every rectangular net of a `w` by `d` by `h` box meets the area
/// checksum — twice the sum of the three face-pair areas equals its total
/// character count.
pub proof fn lemma_rect_net_checksum(lines: Seq<Seq<char>>, w: int, d: int, h: int)
    requires
        0 <= w,
        0 <= d,
        0 <= h,
        lines.len() == 2 * d + h,
        bands_exact(lines, w, d, h),
    ensures
        checksum_ok(lines, w, d, h),
{
    let k: int = 2 * d + h;
    lemma_band_total(lines, w, d, h, k);
    vstd::arithmetic::mul::lemma_mul_basics(w);
    vstd::arithmetic::mul::lemma_mul_basics(h);
    if k <= d {
        assert(d == 0 && h == 0);
        assert(2 * (w * d + w * h + d * h) == 0) by (nonlinear_arith)
            requires
                d == 0 && h == 0,
        ;
    } else if k <= d + h {
        assert(d == 0);
        assert(h * (2 * w + 2 * d) == 2 * (w * d + w * h + d * h)) by (nonlinear_arith)
            requires
                d == 0,
        ;
    } else {
        assert(d * w + h * (2 * w + 2 * d) + d * w == 2 * (w * d + w * h + d * h))
            by (nonlinear_arith);
    }
}

/// A rectangular net of a `w` by `d` by `h` box filled with placeholder
/// glyphs: the middle band rows are all border glyphs, the top and bottom
/// band rows all placeholder letters.
pub open spec fn placeholder_net(w: int, d: int, h: int) -> Seq<Seq<char>> {
    Seq::new(
        (2 * d + h) as nat,
        |i: int|
            if d <= i < d + h {
                Seq::new((2 * w + 2 * d) as nat, |j: int| '+')
            } else {
                Seq::new(w as nat, |j: int| 'A')
            },
    )
}

/// Law: dimension inference round-trips — the placeholder net built from any
/// chosen positive dimensions is accepted and yields those dimensions back.
pub proof fn lemma_net_round_trip(w: int, d: int, h: int)
    requires
        0 <= w,
        1 <= d,
        1 <= h,
    ensures
        net_dims(placeholder_net(w, d, h)) == Some((w, d, h)),
{
    let lines = placeholder_net(w, d, h);
    assert(lines.len() == 2 * d + h);
    assert(starts_with_border(lines[d]));
    assert(forall|k: int| 1 <= k < d ==> !starts_with_border(#[trigger] lines[k]));
    lemma_border_found(lines, 1, d);
    assert(lines[0].len() == w);
    assert(net_structure(lines) == Some((w, d, h)));
    assert forall|i: int| 0 <= i < lines.len() implies lines[i].len() == #[trigger] band_min_len(
        i,
        w,
        d,
        h,
    ) by {
        if d <= i < d + h {
            assert(lines[i].len() == 2 * w + 2 * d);
        } else {
            assert(lines[i].len() == w);
        }
    }
    lemma_rect_net_checksum(lines, w, d, h);
}

} // verus!
