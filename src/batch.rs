//! Column-oriented record batches: named, nullable columns of equal length.
use vstd::prelude::*;

verus! {

#[derive(Debug, Clone, Copy, PartialEq, Eq, Structural)]
pub enum DataType {
    Int32,
    Int64,
    Utf8,
    Boolean,
}

#[derive(Debug, Clone)]
pub enum ColumnData {
    Int32(Vec<Option<i32>>),
    Int64(Vec<Option<i64>>),
    Utf8(Vec<Option<String>>),
    Boolean(Vec<Option<bool>>),
}

#[derive(Debug, Clone)]
pub struct Column {
    pub name: String,
    pub nullable: bool,
    pub data: ColumnData,
}

/// Values of a column.
pub enum DataView {
    Int32(Seq<Option<i32>>),
    Int64(Seq<Option<i64>>),
    Utf8(Seq<Option<Seq<char>>>),
    Boolean(Seq<Option<bool>>),
}

pub struct ColumnView {
    pub name: Seq<char>,
    pub nullable: bool,
    pub data: DataView,
}

pub open spec fn text_views(v: Seq<Option<String>>) -> Seq<Option<Seq<char>>> {
    v.map_values(|o: Option<String>| match o {
        Some(s) => Some(s@),
        None => None,
    })
}

impl View for ColumnData {
    type V = DataView;

    open spec fn view(&self) -> DataView {
        match self {
            ColumnData::Int32(v) => DataView::Int32(v@),
            ColumnData::Int64(v) => DataView::Int64(v@),
            ColumnData::Utf8(v) => DataView::Utf8(text_views(v@)),
            ColumnData::Boolean(v) => DataView::Boolean(v@),
        }
    }
}

impl View for Column {
    type V = ColumnView;

    open spec fn view(&self) -> ColumnView {
        ColumnView { name: self.name@, nullable: self.nullable, data: self.data@ }
    }
}

pub open spec fn data_len(d: DataView) -> nat {
    match d {
        DataView::Int32(v) => v.len(),
        DataView::Int64(v) => v.len(),
        DataView::Utf8(v) => v.len(),
        DataView::Boolean(v) => v.len(),
    }
}

pub open spec fn columns_view(cols: Seq<Column>) -> Seq<ColumnView> {
    cols.map_values(|c: Column| c@)
}

/// Whether every column has `rows` values.
pub open spec fn rows_agree(cols: Seq<ColumnView>, rows: nat) -> bool {
    forall|i: int| 0 <= i < cols.len() ==> data_len(#[trigger] cols[i].data) == rows
}

/// Position of the first column named `name`.
pub open spec fn find_column(cols: Seq<ColumnView>, name: Seq<char>) -> Option<int>
    decreases cols.len(),
{
    if cols.len() == 0 {
        None
    } else {
        match find_column(cols.drop_last(), name) {
            Some(i) => Some(i),
            None => if cols.last().name == name {
                Some(cols.len() - 1)
            } else {
                None
            },
        }
    }
}

pub proof fn lemma_find_column(cols: Seq<ColumnView>, name: Seq<char>)
    ensures
        find_column(cols, name) matches Some(i) ==> 0 <= i < cols.len() && cols[i].name == name
            && forall|j: int| 0 <= j < i ==> cols[j].name != name,
        find_column(cols, name) is None ==> forall|j: int|
            0 <= j < cols.len() ==> cols[j].name != name,
    decreases cols.len(),
{
    if cols.len() > 0 {
        let p = cols.drop_last();
        lemma_find_column(p, name);
        assert(forall|j: int| 0 <= j < p.len() ==> #[trigger] p[j] == cols[j]);
        assert(cols.last() == cols[cols.len() - 1]);
        match find_column(p, name) {
            Some(i) => {
                assert(find_column(cols, name) == Some(i));
                assert forall|j: int| 0 <= j < i implies cols[j].name != name by {
                    assert(p[j] == cols[j]);
                }
            },
            None => {
                if cols.last().name == name {
                    assert(find_column(cols, name) == Some(cols.len() - 1));
                    assert forall|j: int| 0 <= j < cols.len() - 1 implies cols[j].name != name by {
                        assert(p[j] == cols[j]);
                    }
                } else {
                    assert(find_column(cols, name) is None);
                    assert forall|j: int| 0 <= j < cols.len() implies cols[j].name != name by {
                        if j < p.len() {
                            assert(p[j] == cols[j]);
                        }
                    }
                }
            },
        }
    }
}

impl ColumnData {
    pub fn len(&self) -> (r: usize)
        ensures
            r == data_len(self@),
    {
        match self {
            ColumnData::Int32(v) => v.len(),
            ColumnData::Int64(v) => v.len(),
            ColumnData::Utf8(v) => v.len(),
            ColumnData::Boolean(v) => v.len(),
        }
    }

    pub fn data_type(&self) -> (r: DataType)
        ensures
            (r == DataType::Int32) == (self@ is Int32),
            (r == DataType::Int64) == (self@ is Int64),
            (r == DataType::Utf8) == (self@ is Utf8),
            (r == DataType::Boolean) == (self@ is Boolean),
    {
        match self {
            ColumnData::Int32(_) => DataType::Int32,
            ColumnData::Int64(_) => DataType::Int64,
            ColumnData::Utf8(_) => DataType::Utf8,
            ColumnData::Boolean(_) => DataType::Boolean,
        }
    }
}

/// Per-batch header carried through the pipeline.
#[derive(Debug, Clone)]
pub struct Metadata {
    pub flight: String,
    pub buffer_id: u64,
    pub service_id: String,
}

/// A batch with its metadata, as handed from the receiver to the shards.
#[derive(Debug, Clone)]
pub struct RecordBatchWrapper {
    pub metadata: Metadata,
    pub data: Batch,
}

#[derive(Debug, Clone, Copy, PartialEq, Eq, Structural)]
pub enum BatchError {
    /// Columns hold different numbers of values.
    RowCountMismatch,
}

/// A batch: columns that all hold `num_rows` values.
#[derive(Debug, Clone)]
pub struct Batch {
    columns: Vec<Column>,
    num_rows: usize,
}

impl Batch {
    pub closed spec fn wf(&self) -> bool {
        rows_agree(columns_view(self.columns@), self.num_rows as nat)
    }

    pub closed spec fn view(&self) -> Seq<ColumnView> {
        columns_view(self.columns@)
    }

    pub closed spec fn rows(&self) -> nat {
        self.num_rows as nat
    }

    /// A batch of `columns`; refused when they hold different numbers of
    /// values. Without columns the batch has `num_rows` rows.
    pub fn try_new(columns: Vec<Column>, num_rows: usize) -> (r: Result<Batch, BatchError>)
        ensures
            r is Ok <==> rows_agree(columns_view(columns@), num_rows as nat),
            r matches Ok(b) ==> b.wf() && b.view() == columns_view(columns@) && b.rows()
                == num_rows,
            r matches Err(e) ==> e == BatchError::RowCountMismatch,
    {
        let mut i: usize = 0;
        while i < columns.len()
            invariant
                0 <= i <= columns@.len(),
                forall|j: int| 0 <= j < i ==> data_len(columns@[j]@.data) == num_rows,
            decreases columns@.len() - i,
        {
            if columns[i].data.len() != num_rows {
                assert(data_len(columns_view(columns@)[i as int].data) != num_rows);
                return Err(BatchError::RowCountMismatch);
            }
            i = i + 1;
        }
        let r = Batch { columns, num_rows };
        assert(rows_agree(columns_view(r.columns@), num_rows as nat)) by {
            assert forall|j: int| 0 <= j < r.columns@.len() implies data_len(
                #[trigger] columns_view(r.columns@)[j].data,
            ) == num_rows by {
                assert(columns_view(r.columns@)[j] == r.columns@[j]@);
            }
        }
        Ok(r)
    }

    /// Every column of a well-formed batch holds `rows()` values.
    pub proof fn lemma_rows(&self)
        requires
            self.wf(),
        ensures
            rows_agree(self.view(), self.rows()),
    {
    }

    pub fn num_rows(&self) -> (r: usize)
        ensures
            r == self.rows(),
    {
        self.num_rows
    }

    pub fn columns(&self) -> (r: &Vec<Column>)
        ensures
            columns_view(r@) == self.view(),
    {
        &self.columns
    }

    /// Position of the first column named `name`.
    pub fn column_index(&self, name: &String) -> (r: Option<usize>)
        ensures
            r matches Some(i) ==> find_column(self.view(), name@) == Some(i as int),
            r is None ==> find_column(self.view(), name@) is None,
    {
        position_of(&self.columns, name)
    }

    /// A batch of `columns`, which all hold `num_rows` values.
    pub fn from_columns(columns: Vec<Column>, num_rows: usize) -> (r: Batch)
        requires
            rows_agree(columns_view(columns@), num_rows as nat),
        ensures
            r.wf(),
            r.view() == columns_view(columns@),
            r.rows() == num_rows,
    {
        Batch { columns, num_rows }
    }

    pub fn into_columns(self) -> (r: Vec<Column>)
        ensures
            columns_view(r@) == self.view(),
    {
        self.columns
    }
}

/// Position of the first column of `cols` named `name`.
pub fn position_of(cols: &Vec<Column>, name: &String) -> (r: Option<usize>)
    ensures
        r matches Some(i) ==> find_column(columns_view(cols@), name@) == Some(i as int),
        r is None ==> find_column(columns_view(cols@), name@) is None,
{
    let ghost v = columns_view(cols@);
    proof {
        lemma_find_column(v, name@);
    }
    let mut i: usize = 0;
    while i < cols.len()
        invariant
            v == columns_view(cols@),
            0 <= i <= cols@.len(),
            forall|j: int| 0 <= j < i ==> v[j].name != name@,
        decreases cols@.len() - i,
    {
        if cols[i].name == *name {
            proof {
                lemma_find_first(v, name@, i as int);
            }
            return Some(i);
        }
        i = i + 1;
    }
    None
}

proof fn lemma_find_first(cols: Seq<ColumnView>, name: Seq<char>, i: int)
    requires
        0 <= i < cols.len(),
        cols[i].name == name,
        forall|j: int| 0 <= j < i ==> cols[j].name != name,
    ensures
        find_column(cols, name) == Some(i),
    decreases cols.len(),
{
    lemma_find_column(cols, name);
    if i < cols.len() - 1 {
        assert(cols.drop_last()[i] == cols[i]);
        lemma_find_first(cols.drop_last(), name, i);
    } else {
        lemma_find_column(cols.drop_last(), name);
        if find_column(cols.drop_last(), name) is Some {
            let k = find_column(cols.drop_last(), name)->Some_0;
            assert(cols.drop_last()[k] == cols[k]);
        }
    }
}

} // verus!
