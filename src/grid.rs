//! The elevation grid and the reader that builds it from ASCII grid text.

use vstd::prelude::*;
use crate::number::{count_of, fixed_of, parse_count, parse_fixed};
use crate::text::{eq_ignore_ascii_case, is_space_char, scan_lines, scan_tokens, token_is};

verus! {

/// The sentinel for missing samples when the header names none: -99999.
pub const DEFAULT_NO_DATA: i64 = -99_999_000_000;

/// Why a grid could not be read or rendered.
#[derive(Debug, Clone, Copy, PartialEq, Eq, Structural)]
pub enum GridError {
    /// A header value is unusable: a dimension that is missing, zero or not
    /// a count, or a corner that is not a decimal.
    Format,
    /// The rows of the declared width that were read are not as many as the
    /// header declares.
    RowCountMismatch { declared: usize, collected: usize },
    /// No cell holds a sample, so values have no range to be scaled by.
    EmptyRange,
}

/// What a grid is: its dimensions, its sentinel, the header values carried
/// along, and its samples in row-major order, row 0 first. Values are in
/// millionths of a unit.
pub struct GridModel {
    pub columns: usize,
    pub rows: usize,
    pub no_data: i64,
    pub x_ll_corner: Option<i64>,
    pub y_ll_corner: Option<i64>,
    pub cell_size: Option<i64>,
    pub cells: Seq<i64>,
}

impl GridModel {
    /// Both dimensions are positive and the samples fill them.
    pub open spec fn wf(self) -> bool {
        self.columns > 0 && self.rows > 0 && self.cells.len() == self.columns * self.rows
    }

    /// The sample at column `x` of row `y`.
    pub open spec fn at(self, x: int, y: int) -> i64 {
        self.cells[y * self.columns + x]
    }
}

/// An elevation grid. Values are in millionths of a unit (see
/// `number::SCALE`); `cells` holds the rows one after the other, row 0
/// (the northernmost) first.
pub struct ElevationGrid {
    pub columns: usize,
    pub rows: usize,
    pub no_data: i64,
    pub x_ll_corner: Option<i64>,
    pub y_ll_corner: Option<i64>,
    pub cell_size: Option<i64>,
    pub cells: Vec<i64>,
}

impl View for ElevationGrid {
    type V = GridModel;

    open spec fn view(&self) -> GridModel {
        GridModel {
            columns: self.columns,
            rows: self.rows,
            no_data: self.no_data,
            x_ll_corner: self.x_ll_corner,
            y_ll_corner: self.y_ll_corner,
            cell_size: self.cell_size,
            cells: self.cells@,
        }
    }
}

impl ElevationGrid {
    pub open spec fn wf(&self) -> bool {
        self@.wf()
    }

    /// A grid of the given shape and samples, where the samples fill it.
    pub fn from_cells(columns: usize, rows: usize, no_data: i64, cells: Vec<i64>) -> (r: Option<
        ElevationGrid,
    >)
        ensures
            r is Some <==> (columns > 0 && rows > 0 && cells@.len() == columns * rows),
            r matches Some(g) ==> g.wf() && g.columns == columns && g.rows == rows && g.no_data
                == no_data && g.cells@ == cells@ && g.x_ll_corner is None && g.y_ll_corner is None
                && g.cell_size is None,
    {
        if columns == 0 || rows == 0 {
            return None;
        }
        if cells.len() / columns != rows || cells.len() % columns != 0 {
            proof {
                if cells@.len() == columns * rows {
                    vstd::arithmetic::div_mod::lemma_div_multiples_vanish(rows as int, columns as int);
                    vstd::arithmetic::div_mod::lemma_mod_multiples_basic(rows as int, columns as int);
                    assert(columns * rows == rows * columns) by (nonlinear_arith);
                }
            }
            return None;
        }
        proof {
            vstd::arithmetic::div_mod::lemma_fundamental_div_mod(cells.len() as int, columns as int);
            assert(columns * rows == rows * columns) by (nonlinear_arith);
        }
        Some(
            ElevationGrid {
                columns,
                rows,
                no_data,
                x_ll_corner: None,
                y_ll_corner: None,
                cell_size: None,
                cells,
            },
        )
    }

    /// The sample at column `x` of row `y`.
    pub fn value_at(&self, x: usize, y: usize) -> (r: i64)
        requires
            self.wf(),
            x < self.columns,
            y < self.rows,
        ensures
            r == self@.at(x as int, y as int),
    {
        proof {
            lemma_cell_index(self.columns as int, self.rows as int, x as int, y as int);
            assert(y * self.columns + x < self.cells.len());
        }
        self.cells[y * self.columns + x]
    }
}

/// The row-major index of a cell lies inside the grid.
pub proof fn lemma_cell_index(columns: int, rows: int, x: int, y: int)
    requires
        0 <= x < columns,
        0 <= y < rows,
    ensures
        0 <= y * columns + x < columns * rows,
{
    assert(y * columns + x < columns * rows) by (nonlinear_arith)
        requires
            0 <= x < columns,
            0 <= y < rows,
    ;
    assert(0 <= y * columns) by (nonlinear_arith)
        requires
            0 <= y,
            0 <= x < columns,
    ;
}

/// The six header keys.
#[derive(Debug, Clone, Copy, PartialEq, Eq, Structural)]
pub enum HeaderKey {
    Columns,
    Rows,
    XCorner,
    YCorner,
    CellSize,
    NoData,
}

/// The header key that a token names, ignoring ASCII case.
pub open spec fn header_key_of(t: Seq<char>) -> Option<HeaderKey> {
    if eq_ignore_ascii_case(t, seq!['n', 'c', 'o', 'l', 's']) {
        Some(HeaderKey::Columns)
    } else if eq_ignore_ascii_case(t, seq!['n', 'r', 'o', 'w', 's']) {
        Some(HeaderKey::Rows)
    } else if eq_ignore_ascii_case(t, seq!['x', 'l', 'l', 'c', 'o', 'r', 'n', 'e', 'r']) {
        Some(HeaderKey::XCorner)
    } else if eq_ignore_ascii_case(t, seq!['y', 'l', 'l', 'c', 'o', 'r', 'n', 'e', 'r']) {
        Some(HeaderKey::YCorner)
    } else if eq_ignore_ascii_case(t, seq!['c', 'e', 'l', 'l', 's', 'i', 'z', 'e']) {
        Some(HeaderKey::CellSize)
    } else if eq_ignore_ascii_case(
        t,
        seq!['n', 'o', 'd', 'a', 't', 'a', '_', 'v', 'a', 'l', 'u', 'e'],
    ) {
        Some(HeaderKey::NoData)
    } else {
        None
    }
}

pub fn header_key(token: &Vec<char>) -> (r: Option<HeaderKey>)
    ensures
        r == header_key_of(token@),
{
    let ncols = vec!['n', 'c', 'o', 'l', 's'];
    let nrows = vec!['n', 'r', 'o', 'w', 's'];
    let xll = vec!['x', 'l', 'l', 'c', 'o', 'r', 'n', 'e', 'r'];
    let yll = vec!['y', 'l', 'l', 'c', 'o', 'r', 'n', 'e', 'r'];
    let cellsize = vec!['c', 'e', 'l', 'l', 's', 'i', 'z', 'e'];
    let nodata = vec!['n', 'o', 'd', 'a', 't', 'a', '_', 'v', 'a', 'l', 'u', 'e'];
    assert(ncols@ == seq!['n', 'c', 'o', 'l', 's']);
    assert(nrows@ == seq!['n', 'r', 'o', 'w', 's']);
    assert(xll@ == seq!['x', 'l', 'l', 'c', 'o', 'r', 'n', 'e', 'r']);
    assert(yll@ == seq!['y', 'l', 'l', 'c', 'o', 'r', 'n', 'e', 'r']);
    assert(cellsize@ == seq!['c', 'e', 'l', 'l', 's', 'i', 'z', 'e']);
    assert(nodata@ == seq!['n', 'o', 'd', 'a', 't', 'a', '_', 'v', 'a', 'l', 'u', 'e']);
    if token_is(token, &ncols) {
        Some(HeaderKey::Columns)
    } else if token_is(token, &nrows) {
        Some(HeaderKey::Rows)
    } else if token_is(token, &xll) {
        Some(HeaderKey::XCorner)
    } else if token_is(token, &yll) {
        Some(HeaderKey::YCorner)
    } else if token_is(token, &cellsize) {
        Some(HeaderKey::CellSize)
    } else if token_is(token, &nodata) {
        Some(HeaderKey::NoData)
    } else {
        None
    }
}

/// What the reader holds after some lines: whether the data block has
/// begun, the header values so far, and the rows of the declared width.
pub struct ReaderState {
    pub reading_data: bool,
    pub columns: usize,
    pub rows: usize,
    pub no_data: i64,
    pub x_ll_corner: Option<i64>,
    pub y_ll_corner: Option<i64>,
    pub cell_size: Option<i64>,
    pub header_fault: bool,
    pub cells: Seq<i64>,
    pub collected: nat,
}

/// Before any line: header mode, no dimensions, the default sentinel.
pub open spec fn initial_state() -> ReaderState {
    ReaderState {
        reading_data: false,
        columns: 0,
        rows: 0,
        no_data: DEFAULT_NO_DATA,
        x_ll_corner: None,
        y_ll_corner: None,
        cell_size: None,
        header_fault: false,
        cells: Seq::empty(),
        collected: 0,
    }
}

/// A data token's value; a token that is no decimal stands for the sentinel.
pub open spec fn sample_of(t: Seq<char>, no_data: i64) -> i64 {
    match fixed_of(t) {
        Some(v) => v,
        None => no_data,
    }
}

/// A header line sets its key from `value`. A dimension that is no count
/// becomes 0, a sentinel that is no decimal becomes the default, and a cell
/// size that is no decimal is left unset, so that the standard one applies;
/// a corner that is no decimal marks the header as faulty.
pub open spec fn set_header(st: ReaderState, key: HeaderKey, value: Seq<char>) -> ReaderState {
    match key {
        HeaderKey::Columns => ReaderState {
            columns: match count_of(value) {
                Some(n) => n,
                None => 0,
            },
            ..st
        },
        HeaderKey::Rows => ReaderState {
            rows: match count_of(value) {
                Some(n) => n,
                None => 0,
            },
            ..st
        },
        HeaderKey::NoData => ReaderState {
            no_data: match fixed_of(value) {
                Some(v) => v,
                None => DEFAULT_NO_DATA,
            },
            ..st
        },
        HeaderKey::XCorner => match fixed_of(value) {
            Some(v) => ReaderState { x_ll_corner: Some(v), ..st },
            None => ReaderState { header_fault: true, ..st },
        },
        HeaderKey::YCorner => match fixed_of(value) {
            Some(v) => ReaderState { y_ll_corner: Some(v), ..st },
            None => ReaderState { header_fault: true, ..st },
        },
        HeaderKey::CellSize => ReaderState { cell_size: fixed_of(value), ..st },
    }
}

/// One line, given as its tokens. An empty line changes nothing. In header
/// mode a line that starts with a header key sets it from the next token
/// (absent: the empty token). Any other line begins or continues the data
/// block; it is kept as a row when it has exactly `columns` tokens.
pub open spec fn read_line(st: ReaderState, tokens: Seq<Seq<char>>) -> ReaderState {
    if tokens.len() == 0 {
        st
    } else if !st.reading_data && header_key_of(tokens[0]) is Some {
        let value = if tokens.len() >= 2 {
            tokens[1]
        } else {
            Seq::empty()
        };
        set_header(st, header_key_of(tokens[0])->0, value)
    } else if tokens.len() == st.columns {
        ReaderState {
            reading_data: true,
            cells: st.cells + tokens.map_values(|t: Seq<char>| sample_of(t, st.no_data)),
            collected: st.collected + 1,
            ..st
        }
    } else {
        ReaderState { reading_data: true, ..st }
    }
}

/// The state after the given lines, read in order.
pub open spec fn read_lines(lines: Seq<Seq<char>>) -> ReaderState
    decreases lines.len(),
{
    if lines.len() == 0 {
        initial_state()
    } else {
        read_line(read_lines(lines.drop_last()), crate::text::tokens_of(lines.last()))
    }
}

/// The grid that the lines describe, or why there is none: an unusable
/// header first, then a row count that differs from the declared one.
pub open spec fn finish_state(st: ReaderState) -> Result<GridModel, GridError> {
    if st.columns == 0 || st.rows == 0 || st.header_fault {
        Err(GridError::Format)
    } else if st.collected != st.rows {
        Err(
            GridError::RowCountMismatch {
                declared: st.rows,
                collected: if st.collected <= usize::MAX {
                    st.collected as usize
                } else {
                    usize::MAX
                },
            },
        )
    } else {
        Ok(
            GridModel {
                columns: st.columns,
                rows: st.rows,
                no_data: st.no_data,
                x_ll_corner: st.x_ll_corner,
                y_ll_corner: st.y_ll_corner,
                cell_size: st.cell_size,
                cells: st.cells,
            },
        )
    }
}

/// What ASCII grid text describes.
pub open spec fn parsed(text: Seq<char>) -> Result<GridModel, GridError> {
    finish_state(read_lines(crate::text::lines_of(text)))
}

/// The samples of a data row: each token's value, or `no_data`.
fn row_samples(tokens: &Vec<Vec<char>>, no_data: i64) -> (row: Vec<i64>)
    ensures
        row@ == tokens.deep_view().map_values(|t: Seq<char>| sample_of(t, no_data)),
{
    let ghost toks = tokens.deep_view();
    let ghost want = toks.map_values(|t: Seq<char>| sample_of(t, no_data));
    let mut row: Vec<i64> = Vec::new();
    let mut i: usize = 0;
    while i < tokens.len()
        invariant
            i <= tokens.len(),
            toks == tokens.deep_view(),
            want == toks.map_values(|t: Seq<char>| sample_of(t, no_data)),
            row@ == want.take(i as int),
        decreases tokens.len() - i,
    {
        assert(toks[i as int] == tokens@[i as int]@);
        let v = match parse_fixed(&tokens[i]) {
            Some(v) => v,
            None => no_data,
        };
        row.push(v);
        assert(want.take(i + 1) =~= want.take(i as int).push(v));
        i = i + 1;
    }
    assert(want.take(i as int) =~= want);
    row
}

/// Reads an ASCII grid line by line.
pub struct GridReader {
    reading_data: bool,
    columns: usize,
    rows: usize,
    no_data: i64,
    x_ll_corner: Option<i64>,
    y_ll_corner: Option<i64>,
    cell_size: Option<i64>,
    header_fault: bool,
    cells: Vec<i64>,
    collected: usize,
}

impl View for GridReader {
    type V = ReaderState;

    closed spec fn view(&self) -> ReaderState {
        ReaderState {
            reading_data: self.reading_data,
            columns: self.columns,
            rows: self.rows,
            no_data: self.no_data,
            x_ll_corner: self.x_ll_corner,
            y_ll_corner: self.y_ll_corner,
            cell_size: self.cell_size,
            header_fault: self.header_fault,
            cells: self.cells@,
            collected: self.collected as nat,
        }
    }
}

impl GridReader {
    /// The rows kept fill `collected` rows of the declared width.
    pub closed spec fn wf(&self) -> bool {
        &&& self.cells@.len() == self.collected * self.columns
        &&& !self.reading_data ==> self.collected == 0
    }

    pub fn new() -> (r: GridReader)
        ensures
            r@ == initial_state(),
            r.wf(),
    {
        GridReader {
            reading_data: false,
            columns: 0,
            rows: 0,
            no_data: DEFAULT_NO_DATA,
            x_ll_corner: None,
            y_ll_corner: None,
            cell_size: None,
            header_fault: false,
            cells: Vec::new(),
            collected: 0,
        }
    }

    fn set_header(&mut self, key: HeaderKey, value: &Vec<char>)
        requires
            old(self).wf(),
            !old(self).reading_data,
        ensures
            final(self).wf(),
            final(self)@ == set_header(old(self)@, key, value@),
    {
        match key {
            HeaderKey::Columns => {
                self.columns = match parse_count(value) {
                    Some(n) => n,
                    None => 0,
                };
            },
            HeaderKey::Rows => {
                self.rows = match parse_count(value) {
                    Some(n) => n,
                    None => 0,
                };
            },
            HeaderKey::NoData => {
                self.no_data = match parse_fixed(value) {
                    Some(v) => v,
                    None => DEFAULT_NO_DATA,
                };
            },
            HeaderKey::XCorner => match parse_fixed(value) {
                Some(v) => self.x_ll_corner = Some(v),
                None => self.header_fault = true,
            },
            HeaderKey::YCorner => match parse_fixed(value) {
                Some(v) => self.y_ll_corner = Some(v),
                None => self.header_fault = true,
            },
            HeaderKey::CellSize => {
                self.cell_size = parse_fixed(value);
            },
        }
    }

    /// Takes in one line, given as its tokens.
    pub fn read_line(&mut self, tokens: &Vec<Vec<char>>)
        requires
            old(self).wf(),
        ensures
            final(self).wf(),
            final(self)@ == read_line(old(self)@, tokens.deep_view()),
    {
        let ghost toks = tokens.deep_view();
        assert(toks.len() == tokens.len());
        if tokens.len() == 0 {
            return;
        }
        assert(toks[0] == tokens@[0]@);
        if !self.reading_data {
            if let Some(key) = header_key(&tokens[0]) {
                if tokens.len() >= 2 {
                    assert(toks[1] == tokens@[1]@);
                    self.set_header(key, &tokens[1]);
                } else {
                    let empty: Vec<char> = Vec::new();
                    assert(empty@ =~= Seq::<char>::empty());
                    self.set_header(key, &empty);
                }
                return;
            }
        }
        self.reading_data = true;
        if tokens.len() != self.columns {
            return;
        }
        let ghost before = self.cells@;
        let mut row = row_samples(tokens, self.no_data);
        self.cells.append(&mut row);
        let total = self.cells.len();
        proof {
            assert(self.cells@.len() == (self.collected + 1) * self.columns) by (nonlinear_arith)
                requires
                    self.cells@.len() == before.len() + self.columns,
                    before.len() == self.collected * self.columns,
            ;
            assert(self.collected + 1 <= self.cells@.len()) by (nonlinear_arith)
                requires
                    self.cells@.len() == (self.collected + 1) * self.columns,
                    self.columns >= 1,
            ;
            assert(self.collected + 1 <= total);
        }
        self.collected = self.collected + 1;
    }
}

impl GridReader {
    /// The grid read, or why there is none.
    pub fn finish(self) -> (r: Result<ElevationGrid, GridError>)
        requires
            self.wf(),
        ensures
            match r {
                Ok(g) => g.wf() && finish_state(self@) == Ok::<GridModel, GridError>(g@),
                Err(e) => finish_state(self@) == Err::<GridModel, GridError>(e),
            },
    {
        if self.columns == 0 || self.rows == 0 || self.header_fault {
            return Err(GridError::Format);
        }
        if self.collected != self.rows {
            return Err(
                GridError::RowCountMismatch { declared: self.rows, collected: self.collected },
            );
        }
        assert(self.cells@.len() == self.columns * self.rows) by (nonlinear_arith)
            requires
                self.cells@.len() == self.collected * self.columns,
                self.collected == self.rows,
        ;
        Ok(
            ElevationGrid {
                columns: self.columns,
                rows: self.rows,
                no_data: self.no_data,
                x_ll_corner: self.x_ll_corner,
                y_ll_corner: self.y_ll_corner,
                cell_size: self.cell_size,
                cells: self.cells,
            },
        )
    }
}

proof fn lemma_push_token(before: Seq<Vec<char>>, after: Seq<Vec<char>>, tok: Seq<char>)
    requires
        after.len() == before.len() + 1,
        forall|i: int| 0 <= i < before.len() ==> after[i] == before[i],
        after.last()@ == tok,
    ensures
        Seq::new(after.len(), |i: int| after[i].deep_view()) == Seq::new(
            before.len(),
            |i: int| before[i].deep_view(),
        ).push(tok),
{
    assert(after.last().deep_view() =~= tok);
    assert(Seq::new(after.len(), |i: int| after[i].deep_view()) =~= Seq::new(
        before.len(),
        |i: int| before[i].deep_view(),
    ).push(tok));
}

/// Reads ASCII grid text: a header of `key value` lines, then the data
/// rows. Rows whose token count differs from `ncols` are skipped; data
/// tokens that are no decimal stand for the sentinel.
pub fn parse_grid(text: &str) -> (r: Result<ElevationGrid, GridError>)
    ensures
        match r {
            Ok(g) => g.wf() && parsed(text@) == Ok::<GridModel, GridError>(g@),
            Err(e) => parsed(text@) == Err::<GridModel, GridError>(e),
        },
{
    let mut reader = GridReader::new();
    let mut line_tokens: Vec<Vec<char>> = Vec::new();
    let mut token: Vec<char> = Vec::new();
    let ghost mut done_lines: Seq<Seq<char>> = Seq::empty();
    let ghost mut cur_line: Seq<char> = Seq::empty();
    proof {
        assert(text@.take(0) =~= Seq::<char>::empty());
        assert(line_tokens.deep_view() =~= Seq::<Seq<char>>::empty());
    }
    for c in it: text.chars()
        invariant
            it.seq() == text@,
            reader.wf(),
            scan_lines(text@.take(it.index() as int)) == (done_lines, cur_line),
            reader@ == read_lines(done_lines),
            scan_tokens(cur_line) == (line_tokens.deep_view(), token@),
    {
        let ghost k = it.index() as int;
        proof {
            assert(text@[k] == c);
            assert(text@.take(k + 1).drop_last() =~= text@.take(k));
            assert(text@.take(k + 1).last() == c);
        }
        if c == '\n' {
            if token.len() > 0 {
                let ghost before_v = line_tokens@;
                let ghost tok = token@;
                line_tokens.push(token);
                token = Vec::new();
                proof {
                    lemma_push_token(before_v, line_tokens@, tok);
                }
            }
            proof {
                assert(done_lines.push(cur_line).drop_last() =~= done_lines);
            }
            reader.read_line(&line_tokens);
            line_tokens = Vec::new();
            proof {
                done_lines = done_lines.push(cur_line);
                cur_line = Seq::empty();
                assert(line_tokens.deep_view() =~= Seq::<Seq<char>>::empty());
                assert(token@ =~= Seq::<char>::empty());
            }
        } else {
            proof {
                assert(cur_line.push(c).drop_last() =~= cur_line);
            }
            if !is_space_char(c) {
                token.push(c);
            } else if token.len() > 0 {
                    let ghost tok = token@;
                let ghost before_v = line_tokens@;
                line_tokens.push(token);
                token = Vec::new();
                proof {
                    lemma_push_token(before_v, line_tokens@, tok);
                }
                assert(token@ =~= Seq::<char>::empty());
            }
            proof {
                cur_line = cur_line.push(c);
            }
        }
    }
    proof {
        assert(text@.take(text@.len() as int) =~= text@);
    }
    if token.len() > 0 {
        let ghost tok = token@;
        let ghost before_v = line_tokens@;
        line_tokens.push(token);
        proof {
            lemma_push_token(before_v, line_tokens@, tok);
        }
    }
    proof {
        assert(done_lines.push(cur_line).drop_last() =~= done_lines);
    }
    reader.read_line(&line_tokens);
    reader.finish()
}

} // verus!
