//! Rows, columns, and the tracker that keeps rows in a stable order.

use vstd::prelude::*;
use vstd::hash_map::StringHashMap;
use vstd::pervasive::unreached;
use crate::hooks::pagination::{
    get_page_view,
    lemma_window_bounds,
    page_window,
    window_start,
    Pagination,
};
use crate::reconciliation::{
    lemma_append_push,
    lemma_append_wf,
    DuplicateOrInconsistentRows,
    RowModel,
};

verus! {

/// How a column is laid out.
pub struct GridDataColumnProps {
    pub header_name: String,
    pub width: i32,
    pub editable: bool,
    pub sortable: bool,
}

/// A column: it knows its layout and the text it shows for a row.
pub trait GridDataColumn {
    type RowType;

    fn get_config(&self) -> GridDataColumnProps;

    fn get_value(&self, row: &Self::RowType) -> String;

    fn get_field(&self) -> (field: Self) where Self: Sized + Copy
        ensures
            field == *self,
    {
        *self
    }
}

/// A row: it has an identity and shows a text in each column.
pub trait GridData {
    type IdType: Sized + Clone;

    type ColumnType: GridDataColumn<RowType = Self>;

    /// The text of this row in the column `field`: what the column gives for
    /// this row.
    fn get_value(&self, field: Self::ColumnType) -> (text: String)
        ensures
            call_ensures(
                <Self::ColumnType as GridDataColumn>::get_value,
                (&field, self),
                text,
            ),
    {
        field.get_value(&self)
    }

    fn get_id(&self) -> String;
}

/// The tracker of a grid's rows: the identities in presentation order, and
/// for each of them its slot.
pub struct RowState {
    row_index_map: StringHashMap<usize>,
    sort_order: Vec<String>,
}

/// The slots of a map of positions, as numbers.
pub open spec fn slots(positions: Map<Seq<char>, usize>) -> Map<Seq<char>, nat> {
    Map::new(|id: Seq<char>| positions.contains_key(id), |id: Seq<char>| positions[id] as nat)
}

impl View for RowState {
    type V = RowModel;

    closed spec fn view(&self) -> RowModel {
        RowModel { order: self.sort_order.deep_view(), index: slots(self.row_index_map@) }
    }
}

impl RowState {
    #[verifier::type_invariant]
    spec fn inv(&self) -> bool {
        self@.wf()
    }

    /// A tracker without rows.
    pub fn new() -> (state: Self)
        ensures
            state@ == RowModel::empty(),
    {
        let state = RowState { row_index_map: StringHashMap::new(), sort_order: Vec::new() };
        assert(state@.order =~= Seq::empty());
        assert(state@.index =~= Map::empty());
        state
    }

    /// The identities in presentation order.
    pub fn sort_order(&self) -> (order: &Vec<String>)
        ensures
            order.deep_view() == self@.order,
            self@.wf(),
    {
        proof {
            use_type_invariant(self);
        }
        &self.sort_order
    }

    /// The number of rows tracked.
    pub fn len(&self) -> (n: usize)
        ensures
            n == self@.order.len(),
    {
        self.sort_order.len()
    }

    /// The slot of the row with identity `id`, if it is tracked. The slot is a
    /// place in the order, and the order holds `id` there.
    pub fn row_index(&self, id: &str) -> (slot: Option<usize>)
        ensures
            self@.wf(),
            self@.index.contains_key(id@) ==> slot == Some(self@.index[id@] as usize),
            !self@.index.contains_key(id@) ==> slot.is_none(),
            slot matches Some(at) ==> at < self@.order.len() && self@.order[at as int] == id@,
    {
        proof {
            use_type_invariant(self);
        }
        match self.row_index_map.get(id) {
            Some(at) => {
                assert(self@.index.contains_key(id@));
                Some(*at)
            },
            None => None,
        }
    }

    /// The identities among `source_ids` that have no slot yet, in their order.
    fn fresh_ids(&self, source_ids: &Vec<String>) -> (fresh: Vec<String>)
        ensures
            fresh.deep_view() == self@.fresh(source_ids.deep_view()),
    {
        let ghost source = source_ids.deep_view();
        let mut fresh: Vec<String> = Vec::new();
        let mut i: usize = 0;
        assert(source.take(0) =~= Seq::empty());
        assert(fresh.deep_view() =~= Seq::empty());
        while i < source_ids.len()
            invariant
                i <= source_ids.len(),
                source == source_ids.deep_view(),
                fresh.deep_view() == self@.fresh(source.take(i as int)),
            decreases source_ids.len() - i,
        {
            let ghost so_far = fresh.deep_view();
            let known = self.row_index_map.contains_key(source_ids[i].as_str());
            if !known {
                fresh.push(source_ids[i].clone());
            }
            proof {
                let next = source.take(i + 1);
                let id = source_ids[i as int]@;
                assert(next.last() == id);
                assert(self@.is_fresh()(id) == !known);
                assert(next =~= source.take(i as int).push(id));
                source.take(i as int).lemma_filter_push(id, self@.is_fresh());
                assert(self@.fresh(next) == if known {
                    self@.fresh(source.take(i as int))
                } else {
                    self@.fresh(source.take(i as int)).push(id)
                });
                if !known {
                    assert(fresh.deep_view() =~= so_far.push(id));
                }
            }
            i += 1;
        }
        assert(source.take(i as int) =~= source);
        fresh
    }

    /// Takes in the rows whose identities are `source_ids`, in that order.
    ///
    /// A source as long as the tracked order changes nothing; the answer is
    /// `Ok(false)`. Otherwise the identities that have no slot yet are
    /// counted. If the tracked rows and these do not add up to the source,
    /// the source is refused and the tracker comes back as it was. If they do,
    /// the new identities are appended and given the slots that follow; the
    /// answer is `Ok(true)`.
    pub fn reconcile(self, source_ids: &Vec<String>) -> (out: (
        RowState,
        Result<bool, DuplicateOrInconsistentRows>,
    ))
        ensures
            (out.0@, out.1) == self@.reconcile(source_ids.deep_view()),
            out.0@.wf(),
    {
        proof {
            use_type_invariant(&self);
        }
        let held: usize = self.sort_order.len();
        let supplied: usize = source_ids.len();
        if supplied == held {
            return (self, Ok(false));
        }
        let mut fresh = self.fresh_ids(source_ids);
        let added: usize = fresh.len();
        match held.checked_add(added) {
            Some(expected) => {
                if expected != supplied {
                    return (self, Err(DuplicateOrInconsistentRows { expected, supplied }));
                }
            },
            None => {
                return (self, Err(DuplicateOrInconsistentRows { expected: usize::MAX, supplied }));
            },
        }
        let ghost before = self@;
        let ghost appended = fresh.deep_view();
        let RowState { row_index_map, sort_order } = self;
        let mut row_index_map = row_index_map;
        let mut sort_order = sort_order;
        let mut j: usize = 0;
        proof {
            assert(appended.take(0) =~= Seq::empty());
            assert(before.append(Seq::empty()).index =~= before.index);
        }
        while j < fresh.len()
            invariant
                j <= fresh.len(),
                held + fresh.len() <= usize::MAX,
                held == before.order.len(),
                appended == fresh.deep_view(),
                slots(row_index_map@) == before.append(appended.take(j as int)).index,
            decreases fresh.len() - j,
        {
            let id = fresh[j].clone();
            proof {
                lemma_append_push(before, appended.take(j as int), id@);
                assert(appended.take(j + 1) =~= appended.take(j as int).push(id@));
            }
            let ghost positions = row_index_map@;
            row_index_map.insert(id, held + j);
            assert(slots(row_index_map@) =~= slots(positions).insert(id@, (held + j) as nat));
            j += 1;
        }
        proof {
            assert(appended.take(j as int) =~= appended);
            lemma_append_wf(before, appended);
        }
        let ghost kept = sort_order.deep_view();
        sort_order.append(&mut fresh);
        assert(sort_order.deep_view() =~= kept + appended);
        (RowState { row_index_map, sort_order }, Ok(true))
    }
}

/// The identities of `rows`, in their order: for each row what its `get_id`
/// gives.
pub fn row_ids<T: GridData>(rows: &Vec<T>) -> (ids: Vec<String>)
    ensures
        ids.len() == rows.len(),
        forall|k: int|
            0 <= k < rows.len() ==> call_ensures(
                <T as GridData>::get_id,
                (&rows[k],),
                #[trigger] ids[k],
            ),
{
    let mut ids: Vec<String> = Vec::new();
    let mut i: usize = 0;
    while i < rows.len()
        invariant
            i <= rows.len(),
            ids.len() == i,
            forall|k: int|
                0 <= k < i ==> call_ensures(
                    <T as GridData>::get_id,
                    (&rows[k],),
                    #[trigger] ids[k],
                ),
        decreases rows.len() - i,
    {
        ids.push(rows[i].get_id());
        i += 1;
    }
    ids
}

/// Takes a newly supplied collection into the state of a grid: the tracker
/// is reconciled with the identities `source_ids`, and where it grew the
/// pagination is derived anew from the number of rows and `page_size`, which
/// puts the grid on its first page. Otherwise the pagination stays.
pub fn refresh(
    row_state: RowState,
    pg: Pagination,
    source_ids: &Vec<String>,
    page_size: i32,
) -> (out: (RowState, Pagination, Result<bool, DuplicateOrInconsistentRows>))
    requires
        page_size > 0,
    ensures
        (out.0@, out.2) == row_state@.reconcile(source_ids.deep_view()),
        out.0@.wf(),
        out.2 == Ok::<bool, DuplicateOrInconsistentRows>(true) ==> out.1 == Pagination::derived(
            source_ids.len(),
            page_size,
        ),
        out.2 != Ok::<bool, DuplicateOrInconsistentRows>(true) ==> out.1 == pg,
        pg.wf() && pg.total_rows == row_state@.order.len() ==> out.1.wf() && out.1.total_rows
            == out.0@.order.len(),
{
    let (row_state, outcome) = row_state.reconcile(source_ids);
    let pg = match outcome {
        Ok(true) => Pagination::new(source_ids.len(), page_size),
        _ => pg,
    };
    (row_state, pg, outcome)
}

/// A row as a grid shows it: its identity, its slot, and its text in each
/// column. A row whose slot lies beyond the collection shows no text.
pub struct GridRow {
    pub key: String,
    pub index: usize,
    pub cells: Vec<String>,
}

/// What a grid shows: the layout of each column, and the rows of the
/// current page.
pub struct GridView {
    pub header: Vec<GridDataColumnProps>,
    pub rows: Vec<GridRow>,
}

/// Whether `cells` are texts of `row` in `columns`: one for each column, each
/// a text that the column's `get_value` gives for the row.
pub open spec fn shows<T, U>(cells: Seq<String>, row: T, columns: Seq<U>) -> bool where
    T: GridData<ColumnType = U>,
    U: GridDataColumn<RowType = T>,
{
    &&& cells.len() == columns.len()
    &&& forall|j: int|
        0 <= j < columns.len() ==> call_ensures(
            <U as GridDataColumn>::get_value,
            (&columns[j], &row),
            #[trigger] cells[j],
        )
}

/// The texts of `row` in `columns`, one for each column.
fn row_cells<T, U>(row: &T, columns: &Vec<U>) -> (cells: Vec<String>) where
    T: GridData<ColumnType = U>,
    U: GridDataColumn<RowType = T>,

    ensures
        shows(cells@, *row, columns@),
{
    let mut cells: Vec<String> = Vec::new();
    let mut j: usize = 0;
    while j < columns.len()
        invariant
            j <= columns.len(),
            cells.len() == j,
            forall|i: int|
                0 <= i < j ==> call_ensures(
                    <U as GridDataColumn>::get_value,
                    (&columns[i], row),
                    #[trigger] cells[i],
                ),
        decreases columns.len() - j,
    {
        cells.push(columns[j].get_value(row));
        j += 1;
    }
    cells
}

/// The layout of each of `columns`.
fn column_configs<T, U>(columns: &Vec<U>) -> (header: Vec<GridDataColumnProps>) where
    T: GridData<ColumnType = U>,
    U: GridDataColumn<RowType = T>,

    ensures
        header.len() == columns.len(),
        forall|j: int|
            0 <= j < columns.len() ==> call_ensures(
                <U as GridDataColumn>::get_config,
                (&columns[j],),
                #[trigger] header[j],
            ),
{
    let mut header: Vec<GridDataColumnProps> = Vec::new();
    let mut j: usize = 0;
    while j < columns.len()
        invariant
            j <= columns.len(),
            header.len() == j,
            forall|i: int|
                0 <= i < j ==> call_ensures(
                    <U as GridDataColumn>::get_config,
                    (&columns[i],),
                    #[trigger] header[i],
                ),
        decreases columns.len() - j,
    {
        header.push(columns[j].get_config());
        j += 1;
    }
    header
}

/// What the grid shows of `rows` in `columns`: the rows of the current page
/// of `pg`, in the order of `row_state`, each found in `rows` by its slot.
/// The header holds what each column's `get_config` gives, and the texts are
/// what each column's `get_value` gives. Where `rows` is shorter than the
/// order, as after a collection that was refused, a slot may lie beyond it:
/// such a row is shown without texts.
pub fn data_grid<T, U>(
    rows: &Vec<T>,
    columns: &Vec<U>,
    row_state: &RowState,
    pg: &Pagination,
) -> (view: GridView) where T: GridData<ColumnType = U>, U: GridDataColumn<RowType = T>
    ensures
        view.header.len() == columns.len(),
        forall|j: int|
            0 <= j < columns.len() ==> call_ensures(
                <U as GridDataColumn>::get_config,
                (&columns[j],),
                #[trigger] view.header[j],
            ),
        view.rows.len() == page_window(*pg, row_state@.order).len(),
        forall|k: int|
            0 <= k < view.rows.len() ==> {
                let id = page_window(*pg, row_state@.order)[k];
                &&& (#[trigger] view.rows[k]).key@ == id
                &&& row_state@.index.contains_key(id)
                &&& view.rows[k].index == row_state@.index[id]
                &&& view.rows[k].index < rows.len() ==> shows(
                    view.rows[k].cells@,
                    rows[view.rows[k].index as int],
                    columns@,
                )
                &&& view.rows[k].index >= rows.len() ==> view.rows[k].cells.len() == 0
            },
{
    proof {
        use_type_invariant(row_state);
    }
    let header = column_configs::<T, U>(columns);
    let page_view = get_page_view(pg, &row_state.sort_order);
    let ghost window = page_window(*pg, row_state@.order);
    let mut shown: Vec<GridRow> = Vec::new();
    let mut k: usize = 0;
    while k < page_view.len()
        invariant
            k <= page_view.len(),
            row_state@.wf(),
            window == page_window(*pg, row_state@.order),
            page_view.deep_view() == window,
            shown.len() == k,
            forall|i: int|
                0 <= i < k ==> {
                    &&& (#[trigger] shown[i]).key@ == window[i]
                    &&& row_state@.index.contains_key(window[i])
                    &&& shown[i].index == row_state@.index[window[i]]
                    &&& shown[i].index < rows.len() ==> shows(
                        shown[i].cells@,
                        rows[shown[i].index as int],
                        columns@,
                    )
                    &&& shown[i].index >= rows.len() ==> shown[i].cells.len() == 0
                },
        decreases page_view.len() - k,
    {
        let key = page_view[k].clone();
        proof {
            let at = window_start(*pg, row_state@.order.len()) + k;
            lemma_window_bounds(*pg, row_state@.order.len());
            assert(page_view.deep_view().len() == page_view.len());
            assert(key@ == page_view.deep_view()[k as int]);
            assert(0 <= at < row_state@.order.len());
            assert(row_state@.order[at] == window[k as int]);
            assert(row_state@.order.contains(window[k as int]));
            assert(row_state@.index.contains_key(key@));
        }
        let index: usize = match row_state.row_index_map.get(key.as_str()) {
            Some(at) => *at,
            None => unreached(),
        };
        let cells = if index < rows.len() {
            row_cells(&rows[index], columns)
        } else {
            Vec::new()
        };
        shown.push(GridRow { key, index, cells });
        k += 1;
    }
    GridView { header, rows: shown }
}

} // verus!
