//! Pillar schemas: how an R object is split into displayable columns.
//!
//! A data frame becomes one column per leaf of its (possibly nested) columns,
//! a matrix becomes one column per matrix column, and anything else is a
//! single column.  Each displayed column ("pillar") remembers the path of
//! child indices that leads to it and the names that label it.
use std::ops::Range;
use vstd::prelude::*;
use vstd::utf8::encode_utf8;
use crate::text::{concat_all, concat_strings, decimal, push_char, push_decimal, push_str, strings_view};

verus! {

/// The column structure of an object.
pub enum RColumn {
    Flat,
    Packed { ncols: usize, children: Vec<(String, RColumn)> },
}

/// Mathematical view of an [`RColumn`].
pub enum ColumnView {
    Flat,
    Packed { ncols: nat, children: Seq<(Seq<char>, ColumnView)> },
}

/// What the schema needs to know about an R object: whether it is a data
/// frame (with its named columns), a matrix (with its column count and
/// column names, if any), or something else.
pub enum RShape {
    Frame { columns: Vec<(String, RShape)> },
    Matrix { ncols: usize, colnames: Option<Vec<String>> },
    Other,
}

/// Mathematical view of an [`RShape`].
pub enum ShapeView {
    Frame { columns: Seq<(Seq<char>, ShapeView)> },
    Matrix { ncols: nat, colnames: Option<Seq<Seq<char>>> },
    Other,
}

impl RColumn {
    pub open spec fn view(&self) -> ColumnView
        decreases self,
    {
        match self {
            RColumn::Flat => ColumnView::Flat,
            RColumn::Packed { ncols, children } => ColumnView::Packed {
                ncols: *ncols as nat,
                children: children_view(children@),
            },
        }
    }
}

/// View of a list of named child columns.
pub open spec fn children_view(cs: Seq<(String, RColumn)>) -> Seq<(Seq<char>, ColumnView)>
    decreases cs,
{
    if cs.len() == 0 {
        Seq::empty()
    } else {
        children_view(cs.drop_last()).push((cs.last().0@, cs.last().1.view()))
    }
}

impl RShape {
    pub open spec fn view(&self) -> ShapeView
        decreases self,
    {
        match self {
            RShape::Frame { columns } => ShapeView::Frame { columns: shapes_view(columns@) },
            RShape::Matrix { ncols, colnames } => ShapeView::Matrix {
                ncols: *ncols as nat,
                colnames: names_view(*colnames),
            },
            RShape::Other => ShapeView::Other,
        }
    }
}

/// View of a list of named child shapes.
pub open spec fn shapes_view(cs: Seq<(String, RShape)>) -> Seq<(Seq<char>, ShapeView)>
    decreases cs,
{
    if cs.len() == 0 {
        Seq::empty()
    } else {
        shapes_view(cs.drop_last()).push((cs.last().0@, cs.last().1.view()))
    }
}

/// View of an optional list of names.
pub open spec fn names_view(names: Option<Vec<String>>) -> Option<Seq<Seq<char>>> {
    match names {
        Some(v) => Some(strings_view(v@)),
        None => None,
    }
}

/// Number of display columns a column occupies, as recorded in the column.
pub open spec fn pillar_cols(c: ColumnView) -> nat {
    match c {
        ColumnView::Flat => 1,
        ColumnView::Packed { ncols, .. } => ncols,
    }
}

/// Number of leaf columns of a shape: the columns a viewer shows for it.
pub open spec fn shape_cols(s: ShapeView) -> nat
    decreases s,
{
    match s {
        ShapeView::Frame { columns } => shapes_cols(columns),
        ShapeView::Matrix { ncols, .. } => ncols,
        ShapeView::Other => 1,
    }
}

/// Sum of [`shape_cols`] over a list of child shapes.
pub open spec fn shapes_cols(cs: Seq<(Seq<char>, ShapeView)>) -> nat
    decreases cs,
{
    if cs.len() == 0 {
        0
    } else {
        shapes_cols(cs.drop_last()) + shape_cols(cs.last().1)
    }
}

/// The label of a matrix column: `[, "name"]` when the matrix has one name per
/// column, `[, j]` (one-based) otherwise.
pub open spec fn matrix_child_name(colnames: Option<Seq<Seq<char>>>, ncols: nat, j: nat) -> Seq<char> {
    match colnames {
        Some(names) if names.len() == ncols => seq!['[', ',', ' ', '"'] + names[j as int] + seq!['"', ']'],
        _ => seq!['[', ',', ' '] + decimal(j + 1) + seq![']'],
    }
}

/// The label of a data frame column: the bare name at the root, `$name` below it.
pub open spec fn frame_child_label(name: Seq<char>, is_root: bool) -> Seq<char> {
    if is_root {
        name
    } else {
        seq!['$'] + name
    }
}

/// The schema of a shape.
pub open spec fn schema_of(s: ShapeView, is_root: bool) -> ColumnView
    decreases s,
{
    match s {
        ShapeView::Frame { columns } => ColumnView::Packed {
            ncols: shapes_cols(columns),
            children: frame_children(columns, is_root),
        },
        ShapeView::Matrix { ncols, colnames } => ColumnView::Packed {
            ncols,
            children: Seq::new(ncols, |j: int| (matrix_child_name(colnames, ncols, j as nat), ColumnView::Flat)),
        },
        ShapeView::Other => ColumnView::Flat,
    }
}

/// The labelled child schemas of a data frame's columns.
pub open spec fn frame_children(cs: Seq<(Seq<char>, ShapeView)>, is_root: bool) -> Seq<(Seq<char>, ColumnView)>
    decreases cs,
{
    if cs.len() == 0 {
        Seq::empty()
    } else {
        frame_children(cs.drop_last(), is_root).push(
            (frame_child_label(cs.last().0, is_root), schema_of(cs.last().1, false)),
        )
    }
}

/// Every column of a built schema records as its width exactly its leaf count.
pub proof fn lemma_schema_cols(s: ShapeView, is_root: bool)
    ensures
        pillar_cols(schema_of(s, is_root)) == shape_cols(s),
    decreases s,
{
}

proof fn lemma_frame_children_len(cs: Seq<(Seq<char>, ShapeView)>, is_root: bool)
    ensures
        frame_children(cs, is_root).len() == cs.len(),
        forall|i: int| 0 <= i < cs.len() ==> #[trigger] frame_children(cs, is_root)[i] == (
            frame_child_label(cs[i].0, is_root),
            schema_of(cs[i].1, false),
        ),
    decreases cs.len(),
{
    if cs.len() > 0 {
        lemma_frame_children_len(cs.drop_last(), is_root);
    }
}

proof fn lemma_shapes_cols_prefix(cs: Seq<(Seq<char>, ShapeView)>, i: int)
    requires
        0 <= i <= cs.len(),
    ensures
        shapes_cols(cs.take(i)) <= shapes_cols(cs),
        i < cs.len() ==> shapes_cols(cs.take(i)) + shape_cols(cs[i].1) <= shapes_cols(cs),
        i < cs.len() ==> shapes_cols(cs.take(i + 1)) == shapes_cols(cs.take(i)) + shape_cols(cs[i].1),
    decreases cs.len() - i,
{
    if i < cs.len() {
        assert(cs.take(i + 1).drop_last() =~= cs.take(i));
        lemma_shapes_cols_prefix(cs, i + 1);
    } else {
        assert(cs.take(i) =~= cs);
    }
}

proof fn lemma_shapes_view_index(cs: Seq<(String, RShape)>)
    ensures
        shapes_view(cs).len() == cs.len(),
        forall|i: int| 0 <= i < cs.len() ==> #[trigger] shapes_view(cs)[i] == (cs[i].0@, cs[i].1.view()),
    decreases cs.len(),
{
    if cs.len() > 0 {
        lemma_shapes_view_index(cs.drop_last());
    }
}

proof fn lemma_children_view_index(cs: Seq<(String, RColumn)>)
    ensures
        children_view(cs).len() == cs.len(),
        forall|i: int| 0 <= i < cs.len() ==> #[trigger] children_view(cs)[i] == (cs[i].0@, cs[i].1.view()),
    decreases cs.len(),
{
    if cs.len() > 0 {
        lemma_children_view_index(cs.drop_last());
    }
}

/// Number of display columns a column occupies.
pub fn total_pillar_cols(col: &RColumn) -> (r: usize)
    ensures
        r == pillar_cols(col.view()),
{
    match col {
        RColumn::Flat => 1,
        RColumn::Packed { ncols, .. } => *ncols,
    }
}

/// Labels of the columns of a matrix with `ncols` columns.
pub fn matrix_child_names(colnames: &Option<Vec<String>>, ncols: usize) -> (r: Vec<String>)
    ensures
        r@.len() == ncols,
        forall|j: int| 0 <= j < ncols ==> #[trigger] r@[j]@ == matrix_child_name(names_view(*colnames), ncols as nat, j as nat),
{
    let use_names = match colnames {
        Some(names) => names.len() == ncols,
        None => false,
    };
    let mut out: Vec<String> = Vec::new();
    let mut j: usize = 0;
    while j < ncols
        invariant
            j <= ncols,
            out@.len() == j,
            use_names == (colnames is Some && colnames->0@.len() == ncols),
            forall|k: int| 0 <= k < j ==> #[trigger] out@[k]@ == matrix_child_name(names_view(*colnames), ncols as nat, k as nat),
        decreases ncols - j,
    {
        let mut label = String::new();
        push_char(&mut label, '[');
        push_char(&mut label, ',');
        push_char(&mut label, ' ');
        if use_names {
            let names = colnames.as_ref().unwrap();
            push_char(&mut label, '"');
            push_str(&mut label, names[j].as_str());
            push_char(&mut label, '"');
        } else {
            push_decimal(&mut label, j + 1);
        }
        push_char(&mut label, ']');
        proof {
            let expected = matrix_child_name(names_view(*colnames), ncols as nat, j as nat);
            if use_names {
                assert(strings_view(colnames->0@)[j as int] == colnames->0@[j as int]@);
            }
            assert(label@ =~= expected);
        }
        out.push(label);
        j = j + 1;
    }
    out
}

/// Number of leaf columns of an object of shape `x`, when a `usize` can count them.
pub fn leaf_count(x: &RShape) -> (r: Option<usize>)
    ensures
        shape_cols(x.view()) <= usize::MAX ==> r == Some(shape_cols(x.view()) as usize),
        shape_cols(x.view()) > usize::MAX ==> r is None,
    decreases x,
{
    match x {
        RShape::Frame { columns } => {
            let ghost cv = shapes_view(columns@);
            proof {
                lemma_shapes_view_index(columns@);
            }
            let mut total: usize = 0;
            let mut i: usize = 0;
            while i < columns.len()
                invariant
                    i <= columns.len(),
                    cv == shapes_view(columns@),
                    cv.len() == columns@.len(),
                    forall|k: int| 0 <= k < columns@.len() ==> #[trigger] cv[k] == (columns@[k].0@, columns@[k].1.view()),
                    x.view() == (ShapeView::Frame { columns: cv }),
                    *x == (RShape::Frame { columns: *columns }),
                    total == shapes_cols(cv.take(i as int)),
                decreases columns.len() - i,
            {
                proof {
                    lemma_shapes_cols_prefix(cv, i as int);
                    assert(decreases_to!(*x => *columns));
                    assert(decreases_to!(*columns => columns@));
                    assert(decreases_to!(columns@ => columns@[i as int]));
                    assert(decreases_to!(columns@[i as int] => columns@[i as int].1));
                }
                let child = leaf_count(&columns[i].1);
                match child {
                    Some(c) => {
                        if c > usize::MAX - total {
                            return None;
                        }
                        total = total + c;
                    },
                    None => {
                        return None;
                    },
                }
                i = i + 1;
            }
            proof {
                assert(cv.take(columns.len() as int) =~= cv);
            }
            Some(total)
        },
        RShape::Matrix { ncols, .. } => Some(*ncols),
        RShape::Other => Some(1),
    }
}

/// Builds the column structure of an object.
pub fn build_schema(x: &RShape, is_root: bool) -> (r: RColumn)
    requires
        shape_cols(x.view()) <= usize::MAX,
    ensures
        r.view() == schema_of(x.view(), is_root),
    decreases x,
{
    match x {
        RShape::Frame { columns } => {
            let mut children: Vec<(String, RColumn)> = Vec::new();
            let mut ncols: usize = 0;
            let mut i: usize = 0;
            let ghost cv = shapes_view(columns@);
            proof {
                lemma_shapes_view_index(columns@);
                lemma_frame_children_len(cv, is_root);
            }
            while i < columns.len()
                invariant
                    i <= columns.len(),
                    cv == shapes_view(columns@),
                    cv.len() == columns@.len(),
                    forall|k: int| 0 <= k < columns@.len() ==> #[trigger] cv[k] == (columns@[k].0@, columns@[k].1.view()),
                    x.view() == (ShapeView::Frame { columns: cv }),
                    *x == (RShape::Frame { columns: *columns }),
                    shapes_cols(cv) <= usize::MAX,
                    ncols == shapes_cols(cv.take(i as int)),
                    children_view(children@) == frame_children(cv.take(i as int), is_root),
                decreases columns.len() - i,
            {
                let name = &columns[i].0;
                let child = &columns[i].1;
                let mut label = String::new();
                if !is_root {
                    push_char(&mut label, '$');
                }
                push_str(&mut label, name.as_str());
                proof {
                    lemma_shapes_cols_prefix(cv, i as int);
                    assert(shape_cols(child.view()) <= usize::MAX);
                    assert(label@ =~= frame_child_label(cv[i as int].0, is_root));
                }
                let ghost before = children@;
                proof {
                    assert(decreases_to!(*x => *columns));
                    assert(decreases_to!(*columns => columns@));
                    assert(decreases_to!(columns@ => columns@[i as int]));
                    assert(decreases_to!(columns@[i as int] => columns@[i as int].1));
                }
                let built = build_schema(child, false);
                proof {
                    lemma_schema_cols(child.view(), false);
                }
                let width = total_pillar_cols(&built);
                ncols = ncols + width;
                children.push((label, built));
                proof {
                    assert(children@.drop_last() =~= before);
                    assert(cv.take(i as int + 1).drop_last() =~= cv.take(i as int));
                }
                i = i + 1;
            }
            proof {
                assert(cv.take(columns.len() as int) =~= cv);
            }
            RColumn::Packed { ncols, children }
        },
        RShape::Matrix { ncols, colnames } => {
            let names = matrix_child_names(colnames, *ncols);
            let mut children: Vec<(String, RColumn)> = Vec::new();
            let mut j: usize = 0;
            while j < *ncols
                invariant
                    j <= *ncols,
                    names@.len() == *ncols,
                    forall|k: int| 0 <= k < *ncols ==> #[trigger] names@[k]@ == matrix_child_name(names_view(*colnames), *ncols as nat, k as nat),
                    children_view(children@) =~= Seq::new(j as nat, |k: int| (matrix_child_name(names_view(*colnames), *ncols as nat, k as nat), ColumnView::Flat)),
                decreases *ncols - j,
            {
                let ghost before = children@;
                let label = names[j].clone();
                let ghost label_view = label@;
                children.push((label, RColumn::Flat));
                proof {
                    assert(children@.drop_last() =~= before);
                    assert(children@.last().0@ == label_view);
                    assert(children@.last().1.view() == ColumnView::Flat);
                    assert(children_view(children@) == children_view(before).push((label_view, ColumnView::Flat)));
                }
                j = j + 1;
            }
            RColumn::Packed { ncols: *ncols, children }
        },
        RShape::Other => RColumn::Flat,
    }
}


/// The top-level columns of an object: the children of its schema, or a
/// single unnamed flat column when the object is not split into columns.
pub open spec fn root_children_of(s: ShapeView) -> Seq<(Seq<char>, ColumnView)> {
    match schema_of(s, true) {
        ColumnView::Packed { children, .. } => children,
        ColumnView::Flat => seq![(Seq::<char>::empty(), ColumnView::Flat)],
    }
}

/// Top-level columns of an object.
pub fn root_children(x: &RShape) -> (r: Vec<(String, RColumn)>)
    requires
        shape_cols(x.view()) <= usize::MAX,
    ensures
        children_view(r@) == root_children_of(x.view()),
{
    match build_schema(x, true) {
        RColumn::Packed { children, .. } => children,
        RColumn::Flat => {
            let mut v: Vec<(String, RColumn)> = Vec::new();
            let unnamed = String::new();
            let ghost unnamed_view = unnamed@;
            v.push((unnamed, RColumn::Flat));
            proof {
                assert(v@.drop_last() =~= Seq::<(String, RColumn)>::empty());
                assert(v@.last().0@ == unnamed_view);
                assert(children_view(v@) == children_view(Seq::<(String, RColumn)>::empty()).push((unnamed_view, ColumnView::Flat)));
                assert(children_view(v@) =~= seq![(Seq::<char>::empty(), ColumnView::Flat)]);
            }
            v
        },
    }
}

/// The leaf columns below `cs`, in display order, each with the path of child
/// indices that leads to it and the labels met along that path.
pub open spec fn flat_pillars(
    cs: Seq<(Seq<char>, ColumnView)>,
    path: Seq<usize>,
    segs: Seq<Seq<char>>,
) -> Seq<(Seq<usize>, Seq<Seq<char>>)>
    decreases cs,
{
    if cs.len() == 0 {
        Seq::empty()
    } else {
        let p = path.push(#[verifier::truncate] ((cs.len() - 1) as usize));
        let s = segs.push(cs.last().0);
        flat_pillars(cs.drop_last(), path, segs) + match cs.last().1 {
            ColumnView::Flat => seq![(p, s)],
            ColumnView::Packed { children, .. } => flat_pillars(children, p, s),
        }
    }
}

/// View of the raw pillar list built by [`collect_pillars`].
pub open spec fn raw_view(v: Seq<(Vec<usize>, Vec<String>)>) -> Seq<(Seq<usize>, Seq<Seq<char>>)> {
    v.map_values(|e: (Vec<usize>, Vec<String>)| (e.0@, strings_view(e.1@)))
}

/// Every leaf path extends the prefix it was collected under by at least one index.
pub proof fn lemma_flat_pillars_extend(cs: Seq<(Seq<char>, ColumnView)>, path: Seq<usize>, segs: Seq<Seq<char>>)
    ensures
        forall|k: int| 0 <= k < flat_pillars(cs, path, segs).len() ==> {
            &&& #[trigger] flat_pillars(cs, path, segs)[k].0.len() > path.len()
            &&& flat_pillars(cs, path, segs)[k].1.len() > segs.len()
        },
    decreases cs,
{
    if cs.len() > 0 {
        let p = path.push(#[verifier::truncate] ((cs.len() - 1) as usize));
        let s = segs.push(cs.last().0);
        let a = flat_pillars(cs.drop_last(), path, segs);
        let b = match cs.last().1 {
            ColumnView::Flat => seq![(p, s)],
            ColumnView::Packed { children, .. } => flat_pillars(children, p, s),
        };
        lemma_flat_pillars_extend(cs.drop_last(), path, segs);
        match cs.last().1 {
            ColumnView::Flat => {},
            ColumnView::Packed { children, .. } => {
                lemma_flat_pillars_extend(children, p, s);
            },
        }
        assert(flat_pillars(cs, path, segs) == a + b);
        assert forall|k: int| 0 <= k < (a + b).len() implies (a + b)[k].0.len() > path.len() && (a + b)[k].1.len() > segs.len() by {
            if k < a.len() {
                assert((a + b)[k] == a[k]);
            } else {
                assert((a + b)[k] == b[k - a.len()]);
            }
        }
    }
}

/// Collects the leaf columns below `children`, appending them to `out`.
fn collect_pillars(
    children: &Vec<(String, RColumn)>,
    prefix_path: &Vec<usize>,
    prefix_segs: &Vec<String>,
    out: &mut Vec<(Vec<usize>, Vec<String>)>,
)
    ensures
        raw_view(final(out)@) == raw_view(old(out)@) + flat_pillars(
            children_view(children@),
            prefix_path@,
            strings_view(prefix_segs@),
        ),
    decreases children,
{
    let ghost cv = children_view(children@);
    let ghost start = raw_view(out@);
    proof {
        lemma_children_view_index(children@);
    }
    let mut i: usize = 0;
    while i < children.len()
        invariant
            i <= children.len(),
            cv == children_view(children@),
            cv.len() == children@.len(),
            forall|k: int| 0 <= k < children@.len() ==> #[trigger] cv[k] == (children@[k].0@, children@[k].1.view()),
            raw_view(out@) == start + flat_pillars(cv.take(i as int), prefix_path@, strings_view(prefix_segs@)),
        decreases children.len() - i,
    {
        let name = &children[i].0;
        let col = &children[i].1;
        let mut path = prefix_path.clone();
        assert(path@ =~= prefix_path@);
        path.push(i);
        let mut segs = prefix_segs.clone();
        proof {
            assert forall|k: int| 0 <= k < segs@.len() implies #[trigger] segs@[k]@ == prefix_segs@[k]@ by {
                assert(cloned::<String>(prefix_segs[k], segs[k]));
            }
            assert(strings_view(segs@) =~= strings_view(prefix_segs@));
        }
        segs.push(name.clone());
        let ghost p = prefix_path@.push(i);
        let ghost sg = strings_view(prefix_segs@).push(cv[i as int].0);
        proof {
            assert(path@ == p);
            assert(strings_view(segs@) =~= sg);
            assert(cv.take(i as int + 1).drop_last() =~= cv.take(i as int));
            assert(cv.take(i as int + 1).last() == cv[i as int]);
            assert(cv.take(i as int + 1).len() - 1 == i);
        }
        let ghost before = out@;
        match col {
            RColumn::Flat => {
                out.push((path, segs));
                proof {
                    assert(raw_view(out@) =~= raw_view(before).push((p, sg)));
                }
            },
            RColumn::Packed { children: sub, .. } => {
                proof {
                    assert(decreases_to!(*children => children@));
                    assert(decreases_to!(children@ => children@[i as int]));
                    assert(decreases_to!(children@[i as int] => children@[i as int].1));
                    assert(decreases_to!(children@[i as int].1 => *sub));
                }
                collect_pillars(sub, &path, &segs, out);
            },
        }
        i = i + 1;
    }
    proof {
        assert(cv.take(children.len() as int) =~= cv);
    }
}

/// One displayed column: the child path that reaches it, the header shown
/// for it, and its full name from the root.
pub struct Pillar {
    pub path: Vec<usize>,
    pub display_path: String,
    pub full_display_path: String,
}

/// Mathematical view of a [`Pillar`]: (path, displayed header, full name).
pub open spec fn pillar_view(p: Pillar) -> (Seq<usize>, Seq<char>, Seq<char>) {
    (p.path@, p.display_path@, p.full_display_path@)
}

/// The pillar made of the `i`-th raw leaf: its full name joins every label on
/// its path; it shows only its own label when the leaf before it has the same
/// parent, and its full name otherwise.
pub open spec fn resolved_pillar(raw: Seq<(Seq<usize>, Seq<Seq<char>>)>, i: int) -> (Seq<usize>, Seq<char>, Seq<char>) {
    let path = raw[i].0;
    let segs = raw[i].1;
    let full = concat_all(segs);
    let display = if i > 0 && raw[i - 1].0.drop_last() == path.drop_last() {
        segs.last()
    } else {
        full
    };
    (path, display, full)
}

/// Turns the leaf columns below `children` into pillars.
fn resolve_pillars(children: &Vec<(String, RColumn)>) -> (r: Vec<Pillar>)
    ensures
        r@.len() == flat_pillars(children_view(children@), Seq::empty(), Seq::empty()).len(),
        forall|i: int| 0 <= i < r@.len() ==> #[trigger] pillar_view(r@[i]) == resolved_pillar(
            flat_pillars(children_view(children@), Seq::empty(), Seq::empty()),
            i,
        ),
{
    let mut raw: Vec<(Vec<usize>, Vec<String>)> = Vec::new();
    let empty_path: Vec<usize> = Vec::new();
    let empty_segs: Vec<String> = Vec::new();
    proof {
        assert(raw_view(raw@) =~= Seq::<(Seq<usize>, Seq<Seq<char>>)>::empty());
        assert(empty_path@ =~= Seq::<usize>::empty());
        assert(strings_view(empty_segs@) =~= Seq::<Seq<char>>::empty());
    }
    collect_pillars(children, &empty_path, &empty_segs, &mut raw);
    let ghost rv = flat_pillars(children_view(children@), Seq::empty(), Seq::empty());
    proof {
        assert(raw_view(raw@) =~= rv);
        lemma_flat_pillars_extend(children_view(children@), Seq::empty(), Seq::empty());
    }
    let mut pillars: Vec<Pillar> = Vec::new();
    let mut last_parent: Option<Vec<usize>> = None;
    let mut i: usize = 0;
    while i < raw.len()
        invariant
            i <= raw@.len(),
            raw_view(raw@) == rv,
            forall|k: int| 0 <= k < rv.len() ==> #[trigger] rv[k].0.len() > 0 && rv[k].1.len() > 0,
            pillars@.len() == i,
            forall|k: int| 0 <= k < i ==> #[trigger] pillar_view(pillars@[k]) == resolved_pillar(rv, k),
            i == 0 ==> last_parent is None,
            i > 0 ==> last_parent is Some && last_parent->0@ == rv[i - 1].0.drop_last(),
        decreases raw@.len() - i,
    {
        let path = &raw[i].0;
        let segs = &raw[i].1;
        proof {
            assert(rv[i as int] == (path@, strings_view(segs@)));
            assert(rv[i as int].0.len() > 0 && rv[i as int].1.len() > 0);
        }
        let full_display_path = concat_strings(segs);
        let mut parent = path.clone();
        assert(parent@ =~= path@);
        parent.pop();
        assert(parent@ =~= path@.drop_last());
        let same_parent = match &last_parent {
            Some(lp) => *lp == parent,
            None => false,
        };
        proof {
            if let Some(lp) = last_parent {
                if same_parent {
                    assert(lp@ =~= parent@);
                } else {
                    assert(lp@ != parent@);
                }
            }
        }
        let display_path = if same_parent {
            segs[segs.len() - 1].clone()
        } else {
            full_display_path.clone()
        };
        let p = Pillar { path: path.clone(), display_path, full_display_path };
        proof {
            assert(p.path@ =~= path@);
            assert(strings_view(segs@).last() == segs@[segs@.len() - 1]@);
        }
        pillars.push(p);
        last_parent = Some(parent);
        i = i + 1;
    }
    pillars
}


/// Number of leaf columns of a column.
pub open spec fn leaves(c: ColumnView) -> nat
    decreases c,
{
    match c {
        ColumnView::Flat => 1,
        ColumnView::Packed { children, .. } => leaves_children(children),
    }
}

/// Number of leaf columns below a list of columns.
pub open spec fn leaves_children(cs: Seq<(Seq<char>, ColumnView)>) -> nat
    decreases cs,
{
    if cs.len() == 0 {
        0
    } else {
        leaves_children(cs.drop_last()) + leaves(cs.last().1)
    }
}

proof fn lemma_flat_pillars_len(cs: Seq<(Seq<char>, ColumnView)>, path: Seq<usize>, segs: Seq<Seq<char>>)
    ensures
        flat_pillars(cs, path, segs).len() == leaves_children(cs),
    decreases cs,
{
    if cs.len() > 0 {
        let p = path.push(#[verifier::truncate] ((cs.len() - 1) as usize));
        let s = segs.push(cs.last().0);
        let b = match cs.last().1 {
            ColumnView::Flat => seq![(p, s)],
            ColumnView::Packed { children, .. } => flat_pillars(children, p, s),
        };
        lemma_flat_pillars_len(cs.drop_last(), path, segs);
        match cs.last().1 {
            ColumnView::Flat => {},
            ColumnView::Packed { children, .. } => {
                lemma_flat_pillars_len(children, p, s);
            },
        }
        assert(flat_pillars(cs, path, segs) == flat_pillars(cs.drop_last(), path, segs) + b);
        assert(leaves_children(cs) == leaves_children(cs.drop_last()) + leaves(cs.last().1));
    }
}

proof fn lemma_flat_children_leaves(n: nat, f: spec_fn(int) -> Seq<char>)
    ensures
        leaves_children(Seq::new(n, |j: int| (f(j), ColumnView::Flat))) == n,
    decreases n,
{
    if n > 0 {
        let cs = Seq::new(n, |j: int| (f(j), ColumnView::Flat));
        assert(cs.drop_last() =~= Seq::new((n - 1) as nat, |j: int| (f(j), ColumnView::Flat)));
        lemma_flat_children_leaves((n - 1) as nat, f);
        assert(cs.last().1 == ColumnView::Flat);
        assert(leaves_children(cs) == leaves_children(cs.drop_last()) + leaves(cs.last().1));
    }
}

proof fn lemma_schema_leaves(s: ShapeView, is_root: bool)
    ensures
        leaves(schema_of(s, is_root)) == shape_cols(s),
    decreases s, 1nat,
{
    match s {
        ShapeView::Frame { columns } => {
            lemma_frame_children_leaves(columns, is_root);
        },
        ShapeView::Matrix { ncols, colnames } => {
            lemma_flat_children_leaves(ncols, |j: int| matrix_child_name(colnames, ncols, j as nat));
            assert(Seq::new(ncols, |j: int| (matrix_child_name(colnames, ncols, j as nat), ColumnView::Flat))
                =~= Seq::new(ncols, |j: int| ((|j: int| matrix_child_name(colnames, ncols, j as nat))(j), ColumnView::Flat)));
        },
        ShapeView::Other => {},
    }
}

proof fn lemma_frame_children_leaves(cs: Seq<(Seq<char>, ShapeView)>, is_root: bool)
    ensures
        leaves_children(frame_children(cs, is_root)) == shapes_cols(cs),
    decreases cs, 0nat,
{
    if cs.len() > 0 {
        lemma_frame_children_leaves(cs.drop_last(), is_root);
        lemma_schema_leaves(cs.last().1, false);
        assert(frame_children(cs, is_root).drop_last() == frame_children(cs.drop_last(), is_root));
    }
}

/// The viewer shows exactly one column per leaf column of the object: the
/// pillars of an object are as many as its leaf columns.
pub proof fn lemma_pillar_count(s: ShapeView)
    ensures
        flat_pillars(root_children_of(s), Seq::empty(), Seq::empty()).len() == shape_cols(s),
{
    lemma_flat_pillars_len(root_children_of(s), Seq::empty(), Seq::empty());
    lemma_schema_leaves(s, true);
    match schema_of(s, true) {
        ColumnView::Packed { children, .. } => {},
        ColumnView::Flat => {
            let one = seq![(Seq::<char>::empty(), ColumnView::Flat)];
            assert(one.drop_last() =~= Seq::<(Seq<char>, ColumnView)>::empty());
            assert(leaves_children(one) == leaves_children(one.drop_last()) + leaves(one.last().1));
        },
    }
}

/// Why a schema lookup failed.
pub enum SchemaError {
    /// A column index past the last pillar.
    ColumnOutOfRange(usize),
    /// A row index past the row names.
    RowOutOfRange(usize),
    /// An array whose dimensions are missing.
    EmptyDim,
    /// A column path that goes on below a matrix or a plain column.
    PathPastLeaf,
}

/// The displayed columns of an object and its number of rows.
pub struct RSchema {
    pub pillars: Vec<Pillar>,
    pub nrow: usize,
}

impl RSchema {
    /// Number of displayed columns.
    pub open spec fn ncols(&self) -> nat {
        self.pillars@.len()
    }

    /// The `i`-th displayed column: (path, displayed header, full name).
    pub open spec fn pillar(&self, i: int) -> (Seq<usize>, Seq<char>, Seq<char>) {
        pillar_view(self.pillars@[i])
    }

    /// Byte length of the full name of the `i`-th displayed column.
    pub open spec fn name_len(&self, i: int) -> usize {
        encode_utf8(self.pillar(i).2).len() as usize
    }

    /// Builds the schema of an object of the given shape with `nrow` rows.
    pub fn build(x: &RShape, nrow: usize) -> (r: RSchema)
        requires
            shape_cols(x.view()) <= usize::MAX,
        ensures
            r.nrow == nrow,
            r.ncols() == flat_pillars(root_children_of(x.view()), Seq::empty(), Seq::empty()).len(),
            r.ncols() == shape_cols(x.view()),
            forall|i: int| 0 <= i < r.ncols() ==> #[trigger] r.pillar(i) == resolved_pillar(
                flat_pillars(root_children_of(x.view()), Seq::empty(), Seq::empty()),
                i,
            ),
    {
        let children = root_children(x);
        let pillars = resolve_pillars(&children);
        proof {
            lemma_pillar_count(x.view());
        }
        RSchema { pillars, nrow }
    }

    /// Number of displayed columns.
    pub fn len(&self) -> (r: usize)
        ensures
            r == self.ncols(),
    {
        self.pillars.len()
    }

    /// Whether there is no displayed column.
    pub fn is_empty(&self) -> (r: bool)
        ensures
            r == (self.ncols() == 0),
    {
        self.pillars.len() == 0
    }

    /// Full name of the `idx`-th column, if there is one.
    pub fn full_name(&self, idx: usize) -> (r: Option<&str>)
        ensures
            idx < self.ncols() ==> (r matches Some(s) && s@ == self.pillar(idx as int).2),
            idx >= self.ncols() ==> r is None,
    {
        if idx < self.pillars.len() {
            Some(self.pillars[idx].full_display_path.as_str())
        } else {
            None
        }
    }

    /// Byte length of the full name of the `idx`-th column.
    pub fn full_name_len(&self, idx: usize) -> (r: usize)
        requires
            idx < self.ncols(),
        ensures
            r == self.name_len(idx as int),
    {
        self.pillars[idx].full_display_path.as_str().len()
    }

    /// Byte length of the full name of every column.
    pub fn name_lens(&self) -> (r: Vec<usize>)
        ensures
            r@.len() == self.ncols(),
            forall|i: int| 0 <= i < r@.len() ==> #[trigger] r@[i] == self.name_len(i),
    {
        let mut out: Vec<usize> = Vec::new();
        let mut i: usize = 0;
        while i < self.pillars.len()
            invariant
                i <= self.ncols(),
                out@.len() == i,
                forall|k: int| 0 <= k < i ==> #[trigger] out@[k] == self.name_len(k),
            decreases self.ncols() - i,
        {
            out.push(self.full_name_len(i));
            i = i + 1;
        }
        out
    }

    /// Displayed header and child path of the `idx`-th column.
    pub fn column_at(&self, idx: usize) -> (r: Result<(&str, &Vec<usize>), SchemaError>)
        ensures
            idx < self.ncols() ==> (r matches Ok((name, path)) && name@ == self.pillar(idx as int).1
                && path@ == self.pillar(idx as int).0),
            idx >= self.ncols() ==> r == Err::<(&str, &Vec<usize>), SchemaError>(SchemaError::ColumnOutOfRange(idx)),
    {
        if idx < self.pillars.len() {
            let p = &self.pillars[idx];
            Ok((p.display_path.as_str(), &p.path))
        } else {
            Err(SchemaError::ColumnOutOfRange(idx))
        }
    }
}

/// Where the number of rows of an object is read from.
pub enum RowSource {
    /// A data frame, with the number of its row names.
    RowNames(usize),
    /// A matrix or array, with its dimensions.
    Dims(Vec<i32>),
    /// Any other object, with its length.
    Length(usize),
}

/// Number of rows of an object: the number of row names of a data frame,
/// the first dimension of a matrix or array, the length of anything else.
pub fn nrow(source: &RowSource) -> (r: Result<usize, SchemaError>)
    ensures
        match source {
            RowSource::RowNames(n) => r == Ok::<usize, SchemaError>(*n),
            RowSource::Dims(dim) => if dim@.len() == 0 {
                r == Err::<usize, SchemaError>(SchemaError::EmptyDim)
            } else {
                r == Ok::<usize, SchemaError>(dim@[0] as usize)
            },
            RowSource::Length(n) => r == Ok::<usize, SchemaError>(*n),
        },
{
    match source {
        RowSource::RowNames(n) => Ok(*n),
        RowSource::Dims(dim) => {
            if dim.len() == 0 {
                Err(SchemaError::EmptyDim)
            } else {
                Ok(#[verifier::truncate] (dim[0] as usize))
            }
        },
        RowSource::Length(n) => Ok(*n),
    }
}

/// R's one-based positions `start + 1 ..= end` as R integers, from position `from`.
pub open spec fn positions(from: int, count: int) -> Seq<i32> {
    Seq::new(if count > 0 { count as nat } else { 0 }, |k: int| (from + k) as i32)
}

/// R's positions of the rows `rows` of a vector.
pub fn row_indices(rows: &Range<usize>) -> (r: Vec<i32>)
    ensures
        r@ == positions(rows.start + 1, rows.end - rows.start),
{
    let mut out: Vec<i32> = Vec::new();
    let mut idx = rows.start;
    while idx < rows.end
        invariant
            rows.start <= idx,
            rows.start <= rows.end ==> idx <= rows.end,
            rows.start > rows.end ==> idx == rows.start,
            out@ == positions(rows.start + 1, idx - rows.start),
        decreases rows.end - idx,
    {
        out.push(#[verifier::truncate] ((idx + 1) as i32));
        idx = idx + 1;
        assert(out@ =~= positions(rows.start + 1, idx - rows.start));
    }
    assert(out@ =~= positions(rows.start + 1, rows.end - rows.start));
    out
}

/// R's positions of the rows `rows` (all `nrow` rows when `None`) of
/// column `col_idx` of a matrix with `nrow` rows.
pub fn matrix_col_indices(col_idx: usize, nrow: usize, rows: Option<Range<usize>>) -> (r: Vec<i32>)
    requires
        col_idx * nrow + (match rows {
            Some(rg) => rg.end,
            None => nrow,
        }) <= usize::MAX,
    ensures
        ({
            let (start, end) = match rows {
                Some(rg) => (rg.start as int, rg.end as int),
                None => (0int, nrow as int),
            };
            r@ == positions(col_idx * nrow + start + 1, end - start)
        }),
{
    let (start, end) = match rows {
        Some(r) => (r.start, r.end),
        None => (0, nrow),
    };
    assert(col_idx * nrow <= usize::MAX) by (nonlinear_arith)
        requires col_idx * nrow + end <= usize::MAX;
    let base = col_idx * nrow;
    let ghost from = base + start + 1;
    let mut out: Vec<i32> = Vec::new();
    let mut i = start;
    while i < end
        invariant
            base + end <= usize::MAX,
            start <= i,
            start <= end ==> i <= end,
            start > end ==> i == start,
            from == base + start + 1,
            out@ == positions(from, i - start),
        decreases end - i,
    {
        out.push(#[verifier::truncate] ((base + i + 1) as i32));
        i = i + 1;
        assert(out@ =~= positions(from, i - start));
    }
    assert(out@ =~= positions(from, end - start));
    out
}

/// Product of `dim[from..to]`, each read as a count.
pub open spec fn dim_product(dim: Seq<i32>, from: int, to: int) -> int
    decreases to - from,
{
    if to <= from {
        1
    } else {
        dim_product(dim, from, to - 1) * (dim[to - 1] as int)
    }
}

/// R's positions of the rows `start..end` of an array: the same rows of each
/// `nrow`-row slice, slice after slice, for `chunks` slices.
pub open spec fn array_positions(chunks: int, nrow: int, start: int, end: int) -> Seq<i32>
    decreases chunks,
{
    if chunks <= 0 {
        Seq::empty()
    } else {
        array_positions(chunks - 1, nrow, start, end) + positions((chunks - 1) * nrow + start + 1, end - start)
    }
}

proof fn lemma_product_step(p: int, d: int)
    requires
        p >= 0,
        d >= 0,
    ensures
        p * d >= 0,
{
    assert(p * d >= 0) by (nonlinear_arith)
        requires p >= 0, d >= 0;
}

/// The rows `rows` of an array with dimensions `dim`: R's positions of
/// those rows in every slice, and the dimensions of the result, whose first
/// one becomes the number of rows kept.
pub fn array_row_indices(dim: &Vec<i32>, rows: &Range<usize>) -> (r: Result<(Vec<i32>, Vec<i32>), SchemaError>)
    requires
        forall|i: int| 0 <= i < dim@.len() ==> dim@[i] >= 0,
        forall|k: int| 1 <= k <= dim@.len() ==> dim_product(dim@, 1, k) <= usize::MAX,
        dim@.len() > 0 && dim_product(dim@, 1, dim@.len() as int) > 0 ==> (dim_product(dim@, 1, dim@.len() as int) - 1)
            * dim@[0] + rows.end <= usize::MAX,
    ensures
        dim@.len() == 0 ==> r is Err,
        dim@.len() > 0 ==> (r matches Ok((indices, new_dim)) && {
            let n = if rows.start <= rows.end { rows.end - rows.start } else { 0 };
            &&& indices@ == array_positions(
                dim_product(dim@, 1, dim@.len() as int),
                dim@[0] as int,
                rows.start as int,
                rows.end as int,
            )
            &&& new_dim@ == dim@.update(0, n as i32)
        }),
{
    if dim.len() == 0 {
        return Err(SchemaError::EmptyDim);
    }
    let nrow = dim[0] as usize;
    let mut n_chunks: usize = 1;
    let mut j: usize = 1;
    while j < dim.len()
        invariant
            1 <= j <= dim@.len(),
            forall|i: int| 0 <= i < dim@.len() ==> dim@[i] >= 0,
            forall|k: int| 1 <= k <= dim@.len() ==> dim_product(dim@, 1, k) <= usize::MAX,
            n_chunks == dim_product(dim@, 1, j as int),
        decreases dim@.len() - j,
    {
        proof {
            lemma_product_step(dim_product(dim@, 1, j as int), dim@[j as int] as int);
            assert(dim_product(dim@, 1, j as int + 1) <= usize::MAX);
        }
        n_chunks = n_chunks * (dim[j] as usize);
        j = j + 1;
    }
    let chunk_len = if rows.start <= rows.end { rows.end - rows.start } else { 0 };
    let mut indices: Vec<i32> = Vec::new();
    let mut c: usize = 0;
    while c < n_chunks
        invariant
            c <= n_chunks,
            nrow == dim@[0] as int,
            n_chunks > 0 ==> (n_chunks - 1) * nrow + rows.end <= usize::MAX,
            indices@ == array_positions(c as int, nrow as int, rows.start as int, rows.end as int),
        decreases n_chunks - c,
    {
        assert(c * nrow <= (n_chunks - 1) * nrow) by (nonlinear_arith)
            requires c < n_chunks;
        let base = c * nrow;
        let ghost before = indices@;
        let mut r = rows.start;
        while r < rows.end
            invariant
                base + rows.end <= usize::MAX,
                base == c * nrow,
                rows.start <= r,
                rows.start <= rows.end ==> r <= rows.end,
                rows.start > rows.end ==> r == rows.start,
                indices@ == before + positions(base + rows.start + 1, r - rows.start),
            decreases rows.end - r,
        {
            indices.push(#[verifier::truncate] ((base + r + 1) as i32));
            r = r + 1;
            assert(indices@ =~= before + positions(base + rows.start + 1, r - rows.start));
        }
        proof {
            assert(positions(base + rows.start + 1, r - rows.start) =~= positions(base + rows.start + 1, rows.end - rows.start));
        }
        c = c + 1;
    }
    let mut new_dim = dim.clone();
    assert(new_dim@ =~= dim@);
    new_dim.set(0, #[verifier::truncate] (chunk_len as i32));
    Ok((indices, new_dim))
}

/// The row names of the rows `rows`, or the first row index past the names.
pub fn slice_dim_names(names: &Vec<String>, rows: &Range<usize>) -> (r: Result<Vec<String>, SchemaError>)
    ensures
        (rows.start < rows.end && rows.end > names@.len()) ==> r == Err::<Vec<String>, SchemaError>(
            SchemaError::RowOutOfRange(if rows.start >= names@.len() { rows.start } else { names@.len() as usize }),
        ),
        !(rows.start < rows.end && rows.end > names@.len()) ==> (r matches Ok(v) && strings_view(v@) == Seq::new(
            (if rows.start < rows.end { rows.end - rows.start } else { 0 }) as nat,
            |k: int| names@[rows.start + k]@,
        )),
{
    let mut out: Vec<String> = Vec::new();
    let mut i = rows.start;
    while i < rows.end
        invariant
            rows.start <= i,
            rows.start <= rows.end ==> i <= rows.end,
            rows.start > rows.end ==> i == rows.start,
            i > rows.start ==> i <= names@.len(),
            strings_view(out@) == Seq::new((i - rows.start) as nat, |k: int| names@[rows.start + k]@),
        decreases rows.end - i,
    {
        if i >= names.len() {
            return Err(SchemaError::RowOutOfRange(i));
        }
        let ghost before = out@;
        let name = names[i].clone();
        out.push(name);
        proof {
            assert(out@.drop_last() =~= before);
            assert(strings_view(out@) =~= strings_view(before).push(names@[i as int]@));
        }
        i = i + 1;
        assert(strings_view(out@) =~= Seq::new((i - rows.start) as nat, |k: int| names@[rows.start + k]@));
    }
    Ok(out)
}

/// R code selecting the first cell of an array with `n_dims` dimensions
/// named `value`: `value[1]`, `value[1,]`, `value[1,,]`, ...
pub open spec fn first_cell_code(n_dims: usize) -> Seq<char> {
    seq!['v', 'a', 'l', 'u', 'e', '[', '1'] + Seq::new(n_dims.saturating_sub(1) as nat, |i: int| ',') + seq![']']
}

/// R code selecting the first cell of an array with `n_dims` dimensions named `value`.
pub fn array_first_cell_code(n_dims: usize) -> (r: String)
    ensures
        r@ == first_cell_code(n_dims),
{
    let mut out = String::new();
    push_char(&mut out, 'v');
    push_char(&mut out, 'a');
    push_char(&mut out, 'l');
    push_char(&mut out, 'u');
    push_char(&mut out, 'e');
    push_char(&mut out, '[');
    push_char(&mut out, '1');
    let ghost head = out@;
    let commas = n_dims.saturating_sub(1);
    let mut k: usize = 0;
    while k < commas
        invariant
            k <= commas,
            out@ == head + Seq::new(k as nat, |i: int| ','),
        decreases commas - k,
    {
        push_char(&mut out, ',');
        k = k + 1;
        assert(out@ =~= head + Seq::new(k as nat, |i: int| ','));
    }
    push_char(&mut out, ']');
    assert(out@ =~= seq!['v', 'a', 'l', 'u', 'e', '[', '1'] + Seq::new(commas as nat, |i: int| ',') + seq![']']);
    out
}

/// The kind of object reached while following a column's path.
pub enum PathObject {
    /// A data frame, whose columns the path can go into.
    Frame,
    /// A matrix with `nrow` rows, whose columns the path ends at.
    Matrix { nrow: usize },
    /// Anything else: the path ends here.
    Other,
}

/// What to do with the object reached while fetching a column.
pub enum ValueStep {
    /// Go into the data frame's column with this index.
    Column(usize),
    /// The column is the values at these R positions of the matrix.
    MatrixPositions(Vec<i32>),
    /// The column is the object itself, cut to the rows wanted.
    Rows,
    /// The column is the object itself, whole.
    Whole,
}

/// The step taken at `depth` along the column path `path`, on reaching an
/// object of kind `obj`, when `rows` (all rows when `None`) are wanted: at
/// the end of the path the object is cut to the rows; a data frame is
/// entered at the next index of the path; a matrix yields the rows of the
/// column the path's last index names; a path that goes on below a matrix
/// or a plain object is an error.
pub fn value_step(path: &Vec<usize>, depth: usize, obj: &PathObject, rows: &Option<Range<usize>>) -> (r: Result<ValueStep, SchemaError>)
    requires
        depth < path@.len() ==> (obj matches PathObject::Matrix { nrow } ==> path@[depth as int] * (nrow as int) + (match rows {
            Some(rg) => rg.end as int,
            None => nrow as int,
        }) <= usize::MAX),
    ensures
        depth >= path@.len() ==> r == Ok::<ValueStep, SchemaError>(if rows is Some { ValueStep::Rows } else { ValueStep::Whole }),
        depth < path@.len() ==> match obj {
            PathObject::Frame => r == Ok::<ValueStep, SchemaError>(ValueStep::Column(path@[depth as int])),
            PathObject::Matrix { nrow } => if depth + 1 < path@.len() {
                r == Err::<ValueStep, SchemaError>(SchemaError::PathPastLeaf)
            } else {
                let (start, end) = match rows {
                    Some(rg) => (rg.start as int, rg.end as int),
                    None => (0int, *nrow as int),
                };
                r matches Ok(ValueStep::MatrixPositions(ix)) && ix@ == positions(path@[depth as int] * (*nrow as int) + start + 1, end - start)
            },
            PathObject::Other => if depth + 1 < path@.len() {
                r == Err::<ValueStep, SchemaError>(SchemaError::PathPastLeaf)
            } else {
                r == Ok::<ValueStep, SchemaError>(if rows is Some { ValueStep::Rows } else { ValueStep::Whole })
            },
        },
{
    if depth >= path.len() {
        return Ok(if rows.is_some() { ValueStep::Rows } else { ValueStep::Whole });
    }
    match obj {
        PathObject::Frame => Ok(ValueStep::Column(path[depth])),
        PathObject::Matrix { nrow } => {
            if depth + 1 < path.len() {
                return Err(SchemaError::PathPastLeaf);
            }
            let r = match rows {
                Some(rg) => Some(rg.start..rg.end),
                None => None,
            };
            Ok(ValueStep::MatrixPositions(matrix_col_indices(path[depth], *nrow, r)))
        },
        PathObject::Other => {
            if depth + 1 < path.len() {
                return Err(SchemaError::PathPastLeaf);
            }
            Ok(if rows.is_some() { ValueStep::Rows } else { ValueStep::Whole })
        },
    }
}

/// How the value of a cell is taken from its column cut to the cell's row.
pub enum CellPick {
    /// The column is a list: the cell is its first element.
    FirstElement,
    /// The column is an array: the cell is what this R code selects from it.
    ArrayCode(String),
    /// Anything else: the cut column is the cell.
    Whole,
}

/// How the value of a cell is taken from its column cut to the cell's row:
/// the first element of a list; the first cell of an array with `n_dims`
/// dimensions (`array_dims`, when the column is an array), selected by R
/// code; the cut column otherwise.
pub fn cell_pick(is_list: bool, array_dims: Option<usize>) -> (r: CellPick)
    ensures
        is_list ==> r is FirstElement,
        !is_list ==> match array_dims {
            Some(n) => r matches CellPick::ArrayCode(code) && code@ == first_cell_code(n),
            None => r is Whole,
        },
{
    if is_list {
        return CellPick::FirstElement;
    }
    match array_dims {
        Some(n) => CellPick::ArrayCode(array_first_cell_code(n)),
        None => CellPick::Whole,
    }
}

} // verus!
