//! The header reader and row classifier: column labels from the first row,
//! and per-row name, indent level and measurements, together with the
//! mathematical description of parsing a whole cell grid.

use vstd::prelude::*;

use crate::builder::can_insert;
use crate::builder::inserted;
use crate::layout::kv_upsert;

verus! {

/// What the parser reads from one spreadsheet cell: its header label (present
/// exactly when the cell holds a string), its text coercion, and its integer
/// coercion.
pub struct CellView {
    pub label: Option<Seq<char>>,
    pub text: Option<Seq<char>>,
    pub int: Option<i64>,
}

/// Why a conversion was aborted.
#[derive(Clone, Copy, Debug, PartialEq, Eq, Structural)]
pub enum ConvertError {
    /// The table has no header row at all.
    EmptyTable,
    /// A row's name cell cannot be read as text, or a value-bearing cell has
    /// no column label.
    MalformedRow,
    /// A row's indentation skips more than one level, so there is no branch
    /// to attach it to.
    InvalidDepth,
}

/// The view of an optional string.
pub open spec fn opt_str_view(s: Option<String>) -> Option<Seq<char>> {
    match s {
        Some(v) => Some(v@),
        None => None,
    }
}

/// The views of a sequence of strings.
pub open spec fn strs_view(s: Seq<String>) -> Seq<Seq<char>> {
    s.map(|i: int, x: String| x@)
}

/// Whether `c` is a whitespace character: the Unicode `White_Space` set that
/// `str::trim_start` trims.
pub open spec fn is_ws(c: char) -> bool {
    (0x09 <= c as u32 && c as u32 <= 0x0D) || c as u32 == 0x20 || c as u32 == 0x85 || c as u32
        == 0xA0 || c as u32 == 0x1680 || (0x2000 <= c as u32 && c as u32 <= 0x200A) || c as u32
        == 0x2028 || c as u32 == 0x2029 || c as u32 == 0x202F || c as u32 == 0x205F || c as u32
        == 0x3000
}

/// The number of bytes `c` occupies in UTF-8.
pub open spec fn utf8_len(c: char) -> nat {
    if (c as u32) < 0x80 {
        1
    } else if (c as u32) < 0x800 {
        2
    } else if (c as u32) < 0x10000 {
        3
    } else {
        4
    }
}

/// The UTF-8 byte count of the first `i` characters of `s`.
pub open spec fn prefix_bytes(s: Seq<char>, i: int) -> nat
    decreases i,
{
    if i <= 0 {
        0
    } else {
        prefix_bytes(s, i - 1) + utf8_len(s[i - 1])
    }
}

/// The UTF-8 byte count of all of `s`.
pub open spec fn utf8_bytes(s: Seq<char>) -> nat {
    prefix_bytes(s, s.len() as int)
}

/// The number of leading whitespace characters of `s`.
pub open spec fn leading_ws(s: Seq<char>) -> nat
    decreases s.len(),
{
    if s.len() > 0 && is_ws(s[0]) {
        1 + leading_ws(s.drop_first())
    } else {
        0
    }
}

/// The UTF-8 byte count of the leading whitespace of `s`.
pub open spec fn ws_prefix_bytes(s: Seq<char>) -> nat
    decreases s.len(),
{
    if s.len() > 0 && is_ws(s[0]) {
        utf8_len(s[0]) + ws_prefix_bytes(s.drop_first())
    } else {
        0
    }
}

/// Dropping the first character takes its bytes off the front of a prefix
/// count.
proof fn lemma_prefix_shift(s: Seq<char>, k: int)
    requires
        1 <= k <= s.len(),
    ensures
        prefix_bytes(s, k) == utf8_len(s[0]) + prefix_bytes(s.drop_first(), k - 1),
    decreases k,
{
    let t = s.drop_first();
    if k == 1 {
        assert(prefix_bytes(s, 1) == prefix_bytes(s, 0) + utf8_len(s[0]));
        assert(prefix_bytes(s, 0) == 0);
        assert(prefix_bytes(t, 0) == 0);
    } else {
        lemma_prefix_shift(s, k - 1);
        assert(t[k - 2] == s[k - 1]);
        assert(prefix_bytes(s, k) == prefix_bytes(s, k - 1) + utf8_len(s[k - 1]));
        assert(prefix_bytes(t, k - 1) == prefix_bytes(t, k - 2) + utf8_len(t[k - 2]));
    }
}

/// A shorter prefix never counts more bytes.
pub proof fn lemma_prefix_bytes_mono(s: Seq<char>, i: int, j: int)
    requires
        0 <= i <= j,
    ensures
        prefix_bytes(s, i) <= prefix_bytes(s, j),
    decreases j - i,
{
    if i < j {
        lemma_prefix_bytes_mono(s, i, j - 1);
    }
}

/// `leading_ws` is the position of the first non-whitespace character, and
/// `ws_prefix_bytes` counts the bytes up to it.
pub proof fn lemma_leading_ws(s: Seq<char>, k: int)
    requires
        0 <= k <= s.len(),
        forall|j: int| 0 <= j < k ==> is_ws(s[j]),
        k == s.len() || !is_ws(s[k]),
    ensures
        leading_ws(s) == k,
        ws_prefix_bytes(s) == prefix_bytes(s, k),
    decreases s.len(),
{
    if k > 0 {
        assert(is_ws(s[0]));
        let t = s.drop_first();
        assert forall|j: int| 0 <= j < k - 1 implies is_ws(t[j]) by {
            assert(t[j] == s[j + 1]);
        }
        if k < s.len() {
            assert(t[k - 1] == s[k]);
        }
        lemma_leading_ws(t, k - 1);
        lemma_prefix_shift(s, k);
    }
}

/// The whitespace width of `c`: its UTF-8 byte count if it is whitespace,
/// zero otherwise.
fn ws_width(c: char) -> (r: u8)
    ensures
        (r != 0) == is_ws(c),
        r != 0 ==> r as nat == utf8_len(c),
{
    let v = c as u32;
    if (0x09 <= v && v <= 0x0D) || v == 0x20 {
        1
    } else if v == 0x85 || v == 0xA0 {
        2
    } else if v == 0x1680 || (0x2000 <= v && v <= 0x200A) || v == 0x2028 || v == 0x2029 || v
        == 0x202F || v == 0x205F || v == 0x3000 {
        3
    } else {
        0
    }
}

/// The trimmed display name and the indent level of a raw row name: all
/// leading whitespace is removed from the name, and every two bytes of it
/// encode one level of depth — an odd byte count, as from a tab, silently
/// truncates to a shallower depth.
pub fn classify_name(raw: &str) -> (r: (String, usize))
    requires
        utf8_bytes(raw@) <= usize::MAX,
    ensures
        r.0@ == raw@.skip(leading_ws(raw@) as int),
        r.1 == ws_prefix_bytes(raw@) / 2,
{
    let n = raw.unicode_len();
    let mut i: usize = 0;
    let mut bytes: usize = 0;
    while i < n && ws_width(raw.get_char(i)) != 0
        invariant
            i <= n,
            n == raw@.len(),
            utf8_bytes(raw@) <= usize::MAX,
            forall|j: int| 0 <= j < i ==> is_ws(raw@[j]),
            bytes == prefix_bytes(raw@, i as int),
        decreases n - i,
    {
        let w = ws_width(raw.get_char(i));
        proof {
            lemma_prefix_bytes_mono(raw@, i + 1, n as int);
        }
        bytes = bytes + w as usize;
        i += 1;
    }
    proof {
        lemma_leading_ws(raw@, i as int);
    }
    let trimmed = raw.substring_char(i, n);
    proof {
        assert(raw@.skip(i as int) =~= raw@.subrange(i as int, n as int));
    }
    (trimmed.to_owned(), bytes / 2)
}

/// The column labels drawn from the first `j` cells of the header row: the
/// name column is skipped, and only string cells contribute a label.
pub open spec fn labels_upto(header: Seq<CellView>, j: int) -> Seq<Seq<char>>
    decreases j,
{
    if j <= 1 {
        Seq::empty()
    } else {
        match header[j - 1].label {
            Some(l) => labels_upto(header, j - 1).push(l),
            None => labels_upto(header, j - 1),
        }
    }
}

/// All column labels of a header row.
pub open spec fn labels_of(header: Seq<CellView>) -> Seq<Seq<char>> {
    labels_upto(header, header.len() as int)
}

/// The measurements drawn from the first `j` cells of a data row: the name
/// column is skipped, each integer-bearing cell contributes a point named by
/// its column label, other cells are skipped. `None` marks an integer cell
/// beyond the labelled columns.
pub open spec fn points_upto(row: Seq<CellView>, labels: Seq<Seq<char>>, j: int) -> Option<
    Seq<(Seq<char>, i64)>,
>
    decreases j,
{
    if j <= 1 {
        Some(Seq::empty())
    } else {
        match points_upto(row, labels, j - 1) {
            None => None,
            Some(acc) => match row[j - 1].int {
                Some(v) => if j - 2 < labels.len() {
                    Some(kv_upsert(acc, labels[j - 2], v))
                } else {
                    None
                },
                None => Some(acc),
            },
        }
    }
}

/// Once a cell has no label to name its value, every longer prefix of the
/// row is rejected too.
pub proof fn lemma_points_upto_none(row: Seq<CellView>, labels: Seq<Seq<char>>, m: int, n: int)
    requires
        1 <= m <= n,
        points_upto(row, labels, m) is None,
    ensures
        points_upto(row, labels, n) is None,
    decreases n - m,
{
    if m < n {
        lemma_points_upto_none(row, labels, m + 1, n);
    }
}

/// What the classifier produces for one data row: the trimmed name, the
/// indent level, and the row's measurements.
pub open spec fn row_info(row: Seq<CellView>, labels: Seq<Seq<char>>) -> Result<
    (Seq<char>, nat, Seq<(Seq<char>, i64)>),
    ConvertError,
> {
    if row.len() == 0 {
        Err(ConvertError::MalformedRow)
    } else {
        match row[0].text {
            None => Err(ConvertError::MalformedRow),
            Some(raw) => match points_upto(row, labels, row.len() as int) {
                None => Err(ConvertError::MalformedRow),
                Some(pts) => Ok(
                    (
                        raw.skip(leading_ws(raw) as int),
                        ws_prefix_bytes(raw) / 2,
                        pts,
                    ),
                ),
            },
        }
    }
}

/// Attach `node` to a forest at depth `indent`: depth zero starts a new
/// top-level node, a positive depth descends into the most recently appended
/// top-level node; `None` marks an unanchored depth.
pub open spec fn forest_insert(forest: Seq<crate::layout::VerboseView>, node: crate::layout::VerboseView, indent: nat) -> Option<
    Seq<crate::layout::VerboseView>,
> {
    if indent == 0 {
        Some(forest.push(node))
    } else if forest.len() == 0 {
        None
    } else if can_insert(forest.last(), indent) {
        Some(forest.update(forest.len() - 1, inserted(forest.last(), node, indent)))
    } else {
        None
    }
}

/// The forest built from the first `i` rows of the grid (row zero is the
/// header).
pub open spec fn parse_upto(g: Seq<Seq<CellView>>, labels: Seq<Seq<char>>, i: int) -> Result<
    Seq<crate::layout::VerboseView>,
    ConvertError,
>
    decreases i,
{
    if i <= 1 {
        Ok(Seq::empty())
    } else {
        match parse_upto(g, labels, i - 1) {
            Err(e) => Err(e),
            Ok(forest) => match row_info(g[i - 1], labels) {
                Err(e) => Err(e),
                Ok(info) => {
                    let node = crate::layout::VerboseView {
                        name: info.0,
                        data: info.2,
                        nested: Seq::empty(),
                    };
                    match forest_insert(forest, node, info.1) {
                        Some(f2) => Ok(f2),
                        None => Err(ConvertError::InvalidDepth),
                    }
                },
            },
        }
    }
}

/// Once a row fails, every longer prefix fails the same way.
pub proof fn lemma_parse_upto_err(
    g: Seq<Seq<CellView>>,
    labels: Seq<Seq<char>>,
    m: int,
    n: int,
    e: ConvertError,
)
    requires
        1 <= m <= n,
        parse_upto(g, labels, m) == Err::<Seq<crate::layout::VerboseView>, ConvertError>(e),
    ensures
        parse_upto(g, labels, n) == Err::<Seq<crate::layout::VerboseView>, ConvertError>(e),
    decreases n - m,
{
    if m < n {
        lemma_parse_upto_err(g, labels, m + 1, n, e);
    }
}

/// The whole conversion of a cell grid: header labels from row zero, a forest
/// from the remaining rows.
pub open spec fn parse_grid(g: Seq<Seq<CellView>>) -> Result<
    Seq<crate::layout::VerboseView>,
    ConvertError,
> {
    if g.len() == 0 {
        Err(ConvertError::EmptyTable)
    } else {
        parse_upto(g, labels_of(g[0]), g.len() as int)
    }
}

} // verus!
