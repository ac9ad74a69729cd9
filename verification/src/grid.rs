//! Extraction of labelled cells from a rectangular window of a character grid.
//!
//! A grid is a sequence of rows of characters. The four structural glyphs of
//! an ASCII box net (`+`, `-`, `|` and the space) are ignored; every other
//! character inside the requested window is reported as a triple of its local
//! column, local row, and the character itself, in row-major reading order.

use vstd::prelude::*;

verus! {

/// A labelled cell of a face: local column, local row, and the character.
pub type Letter = (usize, usize, char);

/// Whether a character is one of the four structural glyphs of a net, which
/// carry no label.
pub open spec fn is_ignored(c: char) -> bool {
    c == '+' || c == '-' || c == ' ' || c == '|'
}

/// The letters among the first `n` cells of the window row that starts at
/// column `x` of `row`, reported with local row index `ly`.
pub open spec fn row_letters_upto(row: Seq<char>, x: int, ly: int, n: int) -> Seq<Letter>
    decreases n,
{
    if n <= 0 {
        Seq::empty()
    } else if is_ignored(row[x + n - 1]) {
        row_letters_upto(row, x, ly, n - 1)
    } else {
        row_letters_upto(row, x, ly, n - 1).push((((n - 1) as usize), (ly as usize), row[x + n - 1]))
    }
}

/// The letters in the first `m` rows of the window of width `w` whose top-left
/// corner is at column `x`, row `y` of `grid`, in row-major order.
pub open spec fn window_letters_upto(grid: Seq<Seq<char>>, x: int, y: int, w: int, m: int) -> Seq<
    Letter,
>
    decreases m,
{
    if m <= 0 {
        Seq::empty()
    } else {
        window_letters_upto(grid, x, y, w, m - 1) + row_letters_upto(grid[y + m - 1], x, m - 1, w)
    }
}

/// All letters in the `w` by `h` window of `grid` whose top-left corner is at
/// column `x`, row `y`, in row-major order.
pub open spec fn window_letters(grid: Seq<Seq<char>>, x: int, y: int, w: int, h: int) -> Seq<
    Letter,
> {
    window_letters_upto(grid, x, y, w, h)
}

/// Whether an executable character is a structural glyph; agrees with
/// [`is_ignored`].
pub fn is_ignored_char(c: char) -> (r: bool)
    ensures
        r == is_ignored(c),
{
    c == '+' || c == '-' || c == ' ' || c == '|'
}

/// The labelled cells of the `wdt` by `hgt` window of `image` whose top-left
/// corner is at column `x`, row `y`: one triple `(local column, local row,
/// character)` per cell that is not a structural glyph, in row-major order.
pub fn get_letters_in_ascii_grid(
    image: &Vec<Vec<char>>,
    x: usize,
    y: usize,
    wdt: usize,
    hgt: usize,
) -> (letters: Vec<Letter>)
    requires
        y + hgt <= image@.len(),
        forall|i: int| y <= i < y + hgt ==> x + wdt <= image@[i]@.len(),
    ensures
        letters@ == window_letters(image.deep_view(), x as int, y as int, wdt as int, hgt as int),
{
    let grid = Ghost(image.deep_view());
    let n_rows: usize = image.len();
    let mut letters: Vec<Letter> = Vec::new();
    let mut j: usize = 0;
    while j < hgt
        invariant
            j <= hgt,
            y + hgt <= n_rows,
            n_rows == image@.len(),
            forall|i: int| y <= i < y + hgt ==> x + wdt <= image@[i]@.len(),
            grid@ == image.deep_view(),
            letters@ == window_letters_upto(grid@, x as int, y as int, wdt as int, j as int),
        decreases hgt - j,
    {
        let row: &Vec<char> = &image[y + j];
        let row_len: usize = row.len();
        assert(row@ == grid@[y + j]);
        let mut i: usize = 0;
        while i < wdt
            invariant
                i <= wdt,
                j < hgt,
                y + j < n_rows,
                x + wdt <= row_len,
                row_len == row@.len(),
                row@ == grid@[y + j],
                letters@ == window_letters_upto(grid@, x as int, y as int, wdt as int, j as int)
                    + row_letters_upto(grid@[y + j], x as int, j as int, i as int),
            decreases wdt - i,
        {
            let c: char = row[x + i];
            if !is_ignored_char(c) {
                letters.push((i, j, c));
            }
            i = i + 1;
        }
        proof {
            assert(letters@ == window_letters_upto(
                grid@,
                x as int,
                y as int,
                wdt as int,
                j as int + 1,
            ));
        }
        j = j + 1;
    }
    proof {
        assert(window_letters_upto(grid@, x as int, y as int, wdt as int, 0int) =~= Seq::<
            Letter,
        >::empty());
    }
    letters
}

/// Law: a window in which every cell is a structural glyph yields no letters.
pub proof fn lemma_all_ignored_window_empty(grid: Seq<Seq<char>>, x: int, y: int, w: int, h: int)
    requires
        forall|i: int, k: int|
            y <= i < y + h && x <= k < x + w ==> is_ignored(#[trigger] grid[i][k]),
    ensures
        window_letters(grid, x, y, w, h).len() == 0,
    decreases h,
{
    if h > 0 {
        lemma_all_ignored_window_empty(grid, x, y, w, h - 1);
        lemma_all_ignored_row_empty(grid[y + h - 1], x, h - 1, w);
    }
}

/// Law: a window row in which every cell is a structural glyph yields no
/// letters.
pub proof fn lemma_all_ignored_row_empty(row: Seq<char>, x: int, ly: int, n: int)
    requires
        forall|k: int| x <= k < x + n ==> is_ignored(#[trigger] row[k]),
    ensures
        row_letters_upto(row, x, ly, n).len() == 0,
    decreases n,
{
    if n > 0 {
        lemma_all_ignored_row_empty(row, x, ly, n - 1);
    }
}

/// The letters of a window row that holds exactly one label, at local column
/// `k`.
proof fn lemma_single_letter_row(row: Seq<char>, x: int, ly: int, n: int, k: int)
    requires
        0 <= k,
        !is_ignored(row[x + k]),
        forall|j: int| x <= j < x + n && j != x + k ==> is_ignored(#[trigger] row[j]),
    ensures
        k < n ==> row_letters_upto(row, x, ly, n) =~= seq![
            ((k as usize), (ly as usize), row[x + k]),
        ],
        k >= n ==> row_letters_upto(row, x, ly, n).len() == 0,
    decreases n,
{
    if n > 0 {
        lemma_single_letter_row(row, x, ly, n - 1, k);
    }
}

/// Law: a window that holds exactly one label, at local column `cx` and local
/// row `cy`, yields exactly that one triple, at those local coordinates.
pub proof fn lemma_single_letter_window(
    grid: Seq<Seq<char>>,
    x: int,
    y: int,
    w: int,
    h: int,
    cx: int,
    cy: int,
)
    requires
        0 <= cx < w,
        0 <= cy < h,
        !is_ignored(grid[y + cy][x + cx]),
        forall|i: int, k: int|
            y <= i < y + h && x <= k < x + w && (i != y + cy || k != x + cx) ==> is_ignored(
                #[trigger] grid[i][k],
            ),
    ensures
        window_letters(grid, x, y, w, h) =~= seq![
            ((cx as usize), (cy as usize), grid[y + cy][x + cx]),
        ],
    decreases h,
{
    if cy == h - 1 {
        lemma_all_ignored_window_empty(grid, x, y, w, h - 1);
        lemma_single_letter_row(grid[y + h - 1], x, h - 1, w, cx);
        assert(window_letters_upto(grid, x, y, w, h - 1) =~= Seq::<Letter>::empty());
    } else {
        lemma_single_letter_window(grid, x, y, w, h - 1, cx, cy);
        lemma_all_ignored_row_empty(grid[y + h - 1], x, h - 1, w);
        assert(row_letters_upto(grid[y + h - 1], x, h - 1, w) =~= Seq::<Letter>::empty());
    }
}

} // verus!
