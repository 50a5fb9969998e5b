//! The boundary to the spreadsheet crate: a worksheet range is read cell by
//! cell through trusted wrappers, and the verified parser turns it into a
//! verbose forest.

use vstd::prelude::*;

use calamine::Data;
use calamine::DataType;
use calamine::Range;

use crate::builder::insert_tree;
use crate::builder::inserted;
use crate::builder::lemma_verbose_view_seq_push;
use crate::layout::VerboseEntry;
use crate::layout::VerboseView;
use crate::layout::kv_unique;
use crate::layout::verbose_view;
use crate::layout::verbose_view_seq;
use crate::rows::CellView;
use crate::rows::ConvertError;
use crate::rows::classify_name;
use crate::rows::forest_insert;
use crate::rows::labels_of;
use crate::rows::labels_upto;
use crate::rows::lemma_parse_upto_err;
use crate::rows::opt_str_view;
use crate::rows::parse_grid;
use crate::rows::parse_upto;
use crate::rows::points_upto;
use crate::rows::row_info;
use crate::rows::strs_view;

verus! {

/// Declares calamine's `Range`, the rectangular block of cells a worksheet
/// yields; its values are opaque here and read only through the wrappers
/// below.
#[verifier::external_type_specification]
#[verifier::external_body]
#[verifier::reject_recursive_types(T)]
pub struct ExRange<T>(Range<T>);

/// Declares calamine's `Data`, the value of one spreadsheet cell.
#[verifier::external_type_specification]
#[verifier::external_body]
pub struct ExData(Data);

/// What a worksheet range holds, row by row and cell by cell: for each cell,
/// its header label, its text coercion and its integer coercion.
pub uninterp spec fn grid_of(r: Range<Data>) -> Seq<Seq<CellView>>;

/// Relies on calamine's `Range::height`: the number of rows of the range.
#[verifier::external_body]
fn sheet_height(r: &Range<Data>) -> (n: usize)
    ensures
        n == grid_of(*r).len(),
{
    r.height()
}

/// Relies on calamine's `Range::width`: the number of cells of each row; a
/// range with at least one row has at least one column.
#[verifier::external_body]
fn sheet_width(r: &Range<Data>) -> (n: usize)
    ensures
        forall|i: int| 0 <= i < grid_of(*r).len() ==> (#[trigger] grid_of(*r)[i]).len() == n,
        grid_of(*r).len() > 0 ==> n > 0,
{
    r.width()
}

/// Relies on calamine's `Range::get` and the `Data::String` variant: the
/// label a header cell contributes, present exactly when the cell holds a
/// string.
#[verifier::external_body]
fn cell_label(r: &Range<Data>, i: usize, j: usize) -> (res: Option<String>)
    requires
        i < grid_of(*r).len(),
        j < grid_of(*r)[i as int].len(),
    ensures
        opt_str_view(res) == grid_of(*r)[i as int][j as int].label,
{
    match r.get((i, j)) {
        Some(Data::String(s)) => Some(s.clone()),
        _ => None,
    }
}

/// Relies on calamine's `Range::get` and `DataType::as_string`: the text
/// coercion of a cell, a function of the cell's value alone. The returned
/// text is a `String`, so its UTF-8 encoding occupies at most `usize::MAX`
/// bytes.
#[verifier::external_body]
fn cell_text(r: &Range<Data>, i: usize, j: usize) -> (res: Option<String>)
    requires
        i < grid_of(*r).len(),
        j < grid_of(*r)[i as int].len(),
    ensures
        opt_str_view(res) == grid_of(*r)[i as int][j as int].text,
        (match res {
            Some(t) => crate::rows::utf8_bytes(t@) <= usize::MAX,
            None => true,
        }),
{
    match r.get((i, j)) {
        Some(c) => c.as_string(),
        None => None,
    }
}

/// Relies on calamine's `Range::get` and `DataType::as_i64`: the integer
/// coercion of a cell, a function of the cell's value alone.
#[verifier::external_body]
fn cell_int(r: &Range<Data>, i: usize, j: usize) -> (res: Option<i64>)
    requires
        i < grid_of(*r).len(),
        j < grid_of(*r)[i as int].len(),
    ensures
        res == grid_of(*r)[i as int][j as int].int,
{
    match r.get((i, j)) {
        Some(c) => c.as_i64(),
        None => None,
    }
}

/// Convert a worksheet range to a verbose forest: row zero names the
/// columns, each later row becomes one node whose indent level places it in
/// the forest.
#[verifier::loop_isolation(false)]
pub fn parse_spreadsheet(range: &Range<Data>) -> (r: Result<Vec<VerboseEntry>, ConvertError>)
    ensures
        match (r, parse_grid(grid_of(*range))) {
            (Ok(v), Ok(f)) => verbose_view_seq(v@) == f,
            (Err(e1), Err(e2)) => e1 == e2,
            _ => false,
        },
{
    let ghost g = grid_of(*range);
    let height = sheet_height(range);
    if height == 0 {
        return Err(ConvertError::EmptyTable);
    }
    let width = sheet_width(range);
    let ghost gl = labels_of(g[0]);

    let mut labels: Vec<String> = Vec::new();
    let mut j: usize = 1;
    proof {
        assert(strs_view(labels@) =~= labels_upto(g[0], 1));
    }
    while j < width
        invariant
            1 <= j <= width,
            strs_view(labels@) == labels_upto(g[0], j as int),
        decreases width - j,
    {
        let ghost l0 = labels@;
        match cell_label(range, 0, j) {
            Some(l) => {
                labels.push(l);
                proof {
                    assert(strs_view(labels@) =~= strs_view(l0).push(labels@.last()@));
                }
            },
            None => {},
        }
        j += 1;
    }
    proof {
        assert(labels_upto(g[0], width as int) == gl);
    }

    let mut forest: Vec<VerboseEntry> = Vec::new();
    let mut i: usize = 1;
    proof {
        assert(verbose_view_seq(forest@) =~= Seq::<VerboseView>::empty());
    }
    while i < height
        invariant
            1 <= i <= height,
            parse_upto(g, gl, i as int) == Ok::<Seq<VerboseView>, ConvertError>(
                verbose_view_seq(forest@),
            ),
        decreases height - i,
    {
        let ghost f0 = verbose_view_seq(forest@);
        let raw = match cell_text(range, i, 0) {
            Some(s) => s,
            None => {
                proof {
                    lemma_parse_upto_err(g, gl, i + 1, g.len() as int, ConvertError::MalformedRow);
                }
                return Err(ConvertError::MalformedRow);
            },
        };
        let classified = classify_name(raw.as_str());
        let trimmed = classified.0;
        let indent = classified.1;
        let mut entry = VerboseEntry::new(trimmed.as_str());
        let mut c: usize = 1;
        while c < width
            invariant
                1 <= c <= width,
                entry@.name == trimmed@,
                entry@.nested == Seq::<VerboseView>::empty(),
                kv_unique(entry@.data),
                points_upto(g[i as int], gl, c as int) == Some(entry@.data),
                strs_view(labels@) == gl,
                i < height,
            decreases width - c,
        {
            match cell_int(range, i, c) {
                Some(v) => {
                    if c - 1 < labels.len() {
                        let label = labels[c - 1].clone();
                        proof {
                            assert(label@ == gl[c - 1]);
                        }
                        entry.data.insert(label, v);
                    } else {
                        proof {
                            assert(points_upto(g[i as int], gl, c + 1) is None);
                            assert(g[i as int].len() == width);
                            crate::rows::lemma_points_upto_none(
                                g[i as int],
                                gl,
                                c + 1,
                                g[i as int].len() as int,
                            );
                            assert(row_info(g[i as int], gl) == Err::<
                                (Seq<char>, nat, Seq<(Seq<char>, i64)>),
                                ConvertError,
                            >(ConvertError::MalformedRow));
                            lemma_parse_upto_err(
                                g,
                                gl,
                                i + 1,
                                g.len() as int,
                                ConvertError::MalformedRow,
                            );
                        }
                        return Err(ConvertError::MalformedRow);
                    }
                },
                None => {},
            }
            c += 1;
        }
        proof {
            assert(row_info(g[i as int], gl) == Ok::<
                (Seq<char>, nat, Seq<(Seq<char>, i64)>),
                ConvertError,
            >((trimmed@, (indent as nat), entry@.data)));
            assert(entry@ == VerboseView { name: trimmed@, data: entry@.data, nested: Seq::empty() });
        }
        let ghost node = entry@;
        if indent == 0 {
            let ghost fv0 = forest@;
            forest.push(entry);
            proof {
                lemma_verbose_view_seq_push(fv0, forest@.last());
            }
        } else {
            if forest.len() == 0 {
                proof {
                    assert(forest_insert(f0, node, indent as nat) is None);
                    lemma_parse_upto_err(g, gl, i + 1, g.len() as int, ConvertError::InvalidDepth);
                }
                return Err(ConvertError::InvalidDepth);
            }
            proof {
                crate::layout::lemma_verbose_view_seq(forest@);
            }
            let ghost fv0 = forest@;
            let mut top = forest.pop().unwrap();
            if !depth_ok(&top, indent) {
                proof {
                    assert(forest_insert(f0, node, indent as nat) is None);
                    lemma_parse_upto_err(g, gl, i + 1, g.len() as int, ConvertError::InvalidDepth);
                }
                return Err(ConvertError::InvalidDepth);
            }
            insert_tree(&mut top, entry, indent);
            forest.push(top);
            proof {
                lemma_verbose_view_seq_push(fv0.drop_last(), forest@.last());
                crate::layout::lemma_verbose_view_seq(fv0);
                crate::layout::lemma_verbose_view_seq(fv0.drop_last());
                assert(verbose_view_seq(forest@) =~= f0.update(
                    f0.len() - 1,
                    inserted(f0.last(), node, indent as nat),
                ));
            }
        }
        i += 1;
    }
    Ok(forest)
}

/// Whether a new node can be attached `layers` levels below `e`, mirroring
/// `can_insert`.
fn depth_ok(e: &VerboseEntry, layers: usize) -> (b: bool)
    requires
        1 <= layers,
    ensures
        b == crate::builder::can_insert(e@, layers as nat),
    decreases layers,
{
    proof {
        crate::layout::lemma_verbose_view_seq(e.nested@);
    }
    if layers == 1 {
        true
    } else if e.nested.len() > 0 {
        let last = &e.nested[e.nested.len() - 1];
        depth_ok(last, layers - 1)
    } else {
        layers == 2
    }
}

} // verus!
