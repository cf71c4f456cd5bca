//! A power record: one typed value per column of the layout.
use vstd::prelude::*;
use crate::schema::{column_kind, kind_at, lemma_kinds_cover_columns, FieldKind, COLUMN_COUNT};
use crate::text::{
    check_decimal, fits_i64, flag_of, flag_text, format_integer, int_text, integer_of,
    is_decimal, unsigned_part, count_digits, count_points, lemma_flag_round_trip, lemma_int_text_round_trip, parse_flag, parse_integer,
    FALSE_TEXT, TRUE_TEXT,
};

verus! {

/// What a cell holds, as a mathematical value.
pub enum Cell {
    Text(Seq<char>),
    Integer(int),
    Number(Seq<char>),
    Flag(bool),
}

/// One cell of a power record.
#[derive(Clone, Debug)]
pub enum Value {
    Text(String),
    Integer(i64),
    /// A decimal literal, kept as written so that saving reproduces it.
    Number(String),
    Flag(bool),
}

impl View for Value {
    type V = Cell;

    open spec fn view(&self) -> Cell {
        match self {
            Value::Text(s) => Cell::Text(s@),
            Value::Integer(n) => Cell::Integer(*n as int),
            Value::Number(s) => Cell::Number(s@),
            Value::Flag(b) => Cell::Flag(*b),
        }
    }
}

pub open spec fn cell_kind(c: Cell) -> FieldKind {
    match c {
        Cell::Text(_) => FieldKind::Text,
        Cell::Integer(_) => FieldKind::Integer,
        Cell::Number(_) => FieldKind::Number,
        Cell::Flag(_) => FieldKind::Flag,
    }
}

/// A cell whose value its kind can hold.
pub open spec fn cell_ok(c: Cell) -> bool {
    match c {
        Cell::Integer(n) => fits_i64(n),
        Cell::Number(s) => is_decimal(s),
        _ => true,
    }
}

/// The value an empty cell of a kind stands for.
pub open spec fn default_cell(k: FieldKind) -> Cell {
    match k {
        FieldKind::Text => Cell::Text(Seq::empty()),
        FieldKind::Integer => Cell::Integer(0),
        FieldKind::Number => Cell::Number(seq!['0']),
        FieldKind::Flag => Cell::Flag(false),
    }
}

/// Decoding the text of one cell as a value of kind `k`: an empty cell is the
/// kind's default; otherwise the text must spell a value of the kind.
pub open spec fn cell_of(k: FieldKind, s: Seq<char>) -> Option<Cell> {
    if s.len() == 0 {
        Some(default_cell(k))
    } else {
        match k {
            FieldKind::Text => Some(Cell::Text(s)),
            FieldKind::Integer => {
                if integer_of(s) is Some && fits_i64(integer_of(s)->0) {
                    Some(Cell::Integer(integer_of(s)->0))
                } else {
                    None
                }
            },
            FieldKind::Number => {
                if is_decimal(s) {
                    Some(Cell::Number(s))
                } else {
                    None
                }
            },
            FieldKind::Flag => {
                if flag_of(s) is Some {
                    Some(Cell::Flag(flag_of(s)->0))
                } else {
                    None
                }
            },
        }
    }
}

/// The canonical text of a cell.
pub open spec fn cell_text(c: Cell) -> Seq<char> {
    match c {
        Cell::Text(s) => s,
        Cell::Integer(n) => int_text(n),
        Cell::Number(s) => s,
        Cell::Flag(b) => flag_text(b),
    }
}

/// Writing a cell and reading its text back as its own kind gives the cell.
pub proof fn lemma_cell_round_trip(c: Cell)
    requires
        cell_ok(c),
    ensures
        cell_of(cell_kind(c), cell_text(c)) == Some(c),
{
    match c {
        Cell::Text(s) => {
            if s.len() == 0 {
                assert(s =~= Seq::<char>::empty());
            }
        },
        Cell::Integer(n) => {
            lemma_int_text_round_trip(n);
        },
        Cell::Number(s) => {
            if s.len() == 0 {
                assert(!is_decimal(s));
            }
        },
        Cell::Flag(b) => {
            lemma_flag_round_trip(b);
        },
    }
}

/// A decoded cell has the kind it was decoded as, and a value that kind can hold.
pub proof fn lemma_cell_of_ok(k: FieldKind, s: Seq<char>)
    requires
        cell_of(k, s) is Some,
    ensures
        cell_kind(cell_of(k, s)->0) == k,
        cell_ok(cell_of(k, s)->0),
{
    let zero = seq!['0'];
    assert(zero.drop_last() =~= Seq::<char>::empty());
    assert(unsigned_part(zero) == zero);
    assert(zero.last() == '0');
    assert(count_digits(zero.drop_last()) == 0);
    assert(count_points(zero.drop_last()) == 0);
    assert(count_digits(zero) == 1);
    assert(count_points(zero) == 0);
}

/// Decodes the text of one cell as a value of kind `k`.
pub fn decode_cell(k: FieldKind, s: &str) -> (r: Option<Value>)
    ensures
        match r {
            Some(v) => cell_of(k, s@) == Some(v@),
            None => cell_of(k, s@) is None,
        },
{
    if s.unicode_len() == 0 {
        return Some(
            match k {
                FieldKind::Text => Value::Text(String::new()),
                FieldKind::Integer => Value::Integer(0),
                FieldKind::Number => {
                    let zero = String::from_str("0");
                    proof {
                        reveal_strlit("0");
                        assert(zero@ =~= seq!['0']);
                    }
                    Value::Number(zero)
                },
                FieldKind::Flag => Value::Flag(false),
            },
        );
    }
    match k {
        FieldKind::Text => Some(Value::Text(String::from_str(s))),
        FieldKind::Integer => match parse_integer(s) {
            Some(n) => Some(Value::Integer(n)),
            None => None,
        },
        FieldKind::Number => {
            if check_decimal(s) {
                Some(Value::Number(String::from_str(s)))
            } else {
                None
            }
        },
        FieldKind::Flag => match parse_flag(s) {
            Some(b) => Some(Value::Flag(b)),
            None => None,
        },
    }
}

impl Value {
    /// The canonical text of this value.
    pub fn to_text(&self) -> (r: String)
        ensures
            r@ == cell_text(self@),
    {
        match self {
            Value::Text(s) => s.clone(),
            Value::Integer(n) => format_integer(*n),
            Value::Number(s) => s.clone(),
            Value::Flag(b) => {
                if *b {
                    String::from_str(TRUE_TEXT)
                } else {
                    String::from_str(FALSE_TEXT)
                }
            },
        }
    }

    /// A copy of this value.
    pub fn duplicate(&self) -> (r: Value)
        ensures
            r@ == self@,
    {
        match self {
            Value::Text(s) => Value::Text(s.clone()),
            Value::Integer(n) => Value::Integer(*n),
            Value::Number(s) => Value::Number(s.clone()),
            Value::Flag(b) => Value::Flag(*b),
        }
    }
}

/// The text of column `i` of a row; a row shorter than the layout leaves the
/// missing columns empty.
pub open spec fn row_cell(row: Seq<Seq<char>>, i: int) -> Seq<char> {
    if i < row.len() {
        row[i]
    } else {
        Seq::empty()
    }
}

/// Whether every column of a row decodes as its kind.
pub open spec fn row_decodes(row: Seq<Seq<char>>) -> bool {
    forall|i: int| 0 <= i < COLUMN_COUNT ==> (#[trigger] cell_of(column_kind(i), row_cell(row, i))) is Some
}

/// The record a row of cell texts stands for, if every column decodes.
pub open spec fn decode_row(row: Seq<Seq<char>>) -> Option<Seq<Cell>> {
    if row_decodes(row) {
        Some(Seq::new(COLUMN_COUNT as nat, |i: int| cell_of(column_kind(i), row_cell(row, i))->0))
    } else {
        None
    }
}

/// The canonical row of cell texts of a record.
pub open spec fn encode_row(p: Seq<Cell>) -> Seq<Seq<char>> {
    p.map_values(|c: Cell| cell_text(c))
}

/// A record of the layout: one well-formed value per column, of the column's kind.
pub open spec fn record_ok(p: Seq<Cell>) -> bool {
    &&& p.len() == COLUMN_COUNT
    &&& forall|i: int| 0 <= i < p.len() ==> cell_kind(#[trigger] p[i]) == column_kind(i) && cell_ok(p[i])
}

/// Reading back the canonical row of a well-formed record gives the record.
pub proof fn lemma_row_round_trip(p: Seq<Cell>)
    requires
        record_ok(p),
    ensures
        decode_row(encode_row(p)) == Some(p),
{
    let row = encode_row(p);
    assert forall|i: int| 0 <= i < COLUMN_COUNT implies (#[trigger] cell_of(column_kind(i), row_cell(row, i))) == Some(p[i]) by {
        lemma_cell_round_trip(p[i]);
    }
    assert(row_decodes(row));
    assert(decode_row(row)->0 =~= p);
}

/// A decoded row is a well-formed record.
pub proof fn lemma_decoded_row_ok(r: Seq<Seq<char>>)
    requires
        decode_row(r) is Some,
    ensures
        record_ok(decode_row(r)->0),
{
    let p = decode_row(r)->0;
    assert forall|i: int| 0 <= i < p.len() implies cell_kind(#[trigger] p[i]) == column_kind(i)
        && cell_ok(p[i]) by {
        assert(cell_of(column_kind(i), row_cell(r, i)) is Some);
        lemma_cell_of_ok(column_kind(i), row_cell(r, i));
    }
}

/// A power record: the values of one row, in column order.
#[derive(Clone, Debug)]
pub struct Power {
    values: Vec<Value>,
}

impl View for Power {
    type V = Seq<Cell>;

    closed spec fn view(&self) -> Seq<Cell> {
        self.values@.map_values(|v: Value| v@)
    }
}

impl Power {
    /// A record of the layout: one well-formed value per column, of the column's kind.
    pub open spec fn wf(&self) -> bool {
        record_ok(self@)
    }

    /// The values of this record, in column order.
    pub fn values(&self) -> (r: &Vec<Value>)
        ensures
            r@.map_values(|v: Value| v@) == self@,
    {
        &self.values
    }

    /// Decodes one row of cell texts, column by column; `None` when some
    /// column does not decode as its kind.
    pub fn from_row(row: &Vec<String>) -> (r: Option<Power>)
        ensures
            match r {
                Some(p) => decode_row(row.deep_view()) == Some(p@) && p.wf(),
                None => decode_row(row.deep_view()) is None,
            },
    {
        let ghost rv = row.deep_view();
        let mut values: Vec<Value> = Vec::new();
        let mut i: usize = 0;
        while i < COLUMN_COUNT
            invariant
                i <= COLUMN_COUNT,
                rv == row.deep_view(),
                values@.len() == i,
                forall|j: int| 0 <= j < i ==> cell_of(column_kind(j), row_cell(rv, j)) == Some(#[trigger] values@[j]@),
            decreases COLUMN_COUNT - i,
        {
            let k = kind_at(i);
            let decoded = if i < row.len() {
                decode_cell(k, row[i].as_str())
            } else {
                proof {
                    reveal_strlit("");
                }
                decode_cell(k, "")
            };
            match decoded {
                Some(v) => {
                    values.push(v);
                },
                None => {
                    assert(!row_decodes(rv)) by {
                        assert(cell_of(column_kind(i as int), row_cell(rv, i as int)) is None);
                    }
                    return None;
                },
            }
            i = i + 1;
        }
        let p = Power { values };
        assert(row_decodes(rv)) by {
            assert forall|j: int| 0 <= j < COLUMN_COUNT implies (#[trigger] cell_of(column_kind(j), row_cell(rv, j))) is Some by {
                assert(cell_of(column_kind(j), row_cell(rv, j)) == Some(values@[j]@));
            }
        }
        assert(decode_row(rv)->0 =~= p@);
        proof {
            lemma_decoded_row_ok(rv);
        }
        Some(p)
    }

    /// The canonical row of cell texts of this record.
    pub fn to_row(&self) -> (r: Vec<String>)
        ensures
            r.deep_view() == encode_row(self@),
    {
        let mut row: Vec<String> = Vec::new();
        let mut i: usize = 0;
        while i < self.values.len()
            invariant
                i <= self.values@.len(),
                row@.len() == i,
                forall|j: int| 0 <= j < i ==> (#[trigger] row@[j])@ == cell_text(self.values@[j]@),
            decreases self.values@.len() - i,
        {
            row.push(self.values[i].to_text());
            i = i + 1;
        }
        assert(row.deep_view() =~= encode_row(self@));
        row
    }

    /// A copy of this record.
    pub fn duplicate(&self) -> (r: Power)
        ensures
            r@ == self@,
            r.wf() == self.wf(),
    {
        let mut values: Vec<Value> = Vec::new();
        let mut i: usize = 0;
        while i < self.values.len()
            invariant
                i <= self.values@.len(),
                values@.len() == i,
                forall|j: int| 0 <= j < i ==> (#[trigger] values@[j])@ == self.values@[j]@,
            decreases self.values@.len() - i,
        {
            values.push(self.values[i].duplicate());
            i = i + 1;
        }
        let r = Power { values };
        assert(r@ =~= self@);
        r
    }
}

} // verus!
