use vstd::prelude::*;
use vstd::string::StrSliceExecFns;
use crate::board::{Pixel, PixelCoord};

verus! {

#[derive(Clone, Copy, Debug, PartialEq, Eq, Structural)]
pub enum DirectionError {
    TooManyParts,
    UnknownDirection,
    UnknownRow,
    UnknownColumn,
}

/// Horizontal direction: which column of the board.
#[derive(Clone, Copy, Debug, PartialEq, Eq, Structural)]
pub enum Row {
    Left,
    Right,
    Center,
}

/// Vertical direction: which row of the board.
#[derive(Clone, Copy, Debug, PartialEq, Eq, Structural)]
pub enum Column {
    Top,
    Bottom,
    Center,
}

/// A white-space character in Unicode's sense.
pub open spec fn is_space(c: char) -> bool {
    let n = c as u32;
    n == 0x20 || (0x09 <= n && n <= 0x0d) || n == 0x85 || n == 0xa0 || n == 0x1680 || (0x2000 <= n
        && n <= 0x200a) || n == 0x2028 || n == 0x2029 || n == 0x202f || n == 0x205f || n == 0x3000
}

pub open spec fn trim_start(s: Seq<char>) -> Seq<char>
    decreases s.len(),
{
    if s.len() > 0 && is_space(s[0]) {
        trim_start(s.drop_first())
    } else {
        s
    }
}

pub open spec fn trim_end(s: Seq<char>) -> Seq<char>
    decreases s.len(),
{
    if s.len() > 0 && is_space(s.last()) {
        trim_end(s.drop_last())
    } else {
        s
    }
}

/// `s` without leading and trailing white space.
pub open spec fn trim(s: Seq<char>) -> Seq<char> {
    trim_end(trim_start(s))
}

/// Code point of `c` after ASCII lowercasing.
pub open spec fn ascii_lower(c: char) -> u32 {
    let n = c as u32;
    if 0x41 <= n && n <= 0x5a {
        (n + 0x20) as u32
    } else {
        n
    }
}

/// `t`, lowercased in ASCII, is the word `w`.
pub open spec fn matches_word(t: Seq<char>, w: Seq<char>) -> bool {
    t.len() == w.len() && forall|i: int| 0 <= i < t.len() ==> ascii_lower(#[trigger] t[i]) == w[i] as u32
}

/// The row direction that the token `t` names, if any.
pub open spec fn row_of(t: Seq<char>) -> Option<Row> {
    let u = trim(t);
    if matches_word(u, "left"@) {
        Some(Row::Left)
    } else if matches_word(u, "right"@) {
        Some(Row::Right)
    } else if matches_word(u, "center"@) {
        Some(Row::Center)
    } else {
        None
    }
}

/// The column direction that the token `t` names, if any.
pub open spec fn column_of(t: Seq<char>) -> Option<Column> {
    let u = trim(t);
    if matches_word(u, "top"@) {
        Some(Column::Top)
    } else if matches_word(u, "bottom"@) {
        Some(Column::Bottom)
    } else if matches_word(u, "center"@) {
        Some(Column::Center)
    } else {
        None
    }
}

fn is_space_exec(c: char) -> (r: bool)
    ensures
        r == is_space(c),
{
    let n = c as u32;
    n == 0x20 || (0x09 <= n && n <= 0x0d) || n == 0x85 || n == 0xa0 || n == 0x1680 || (0x2000 <= n
        && n <= 0x200a) || n == 0x2028 || n == 0x2029 || n == 0x202f || n == 0x205f || n == 0x3000
}

fn ascii_lower_exec(c: char) -> (r: u32)
    ensures
        r == ascii_lower(c),
{
    let n = c as u32;
    if 0x41 <= n && n <= 0x5a {
        n + 0x20
    } else {
        n
    }
}

/// Bounds of the part of `s[from..to]` that is left once white space is
/// trimmed from both ends.
pub(crate) fn trim_range(s: &str, from: usize, to: usize) -> (r: (usize, usize))
    requires
        from <= to <= s@.len(),
    ensures
        from <= r.0 <= r.1 <= to,
        s@.subrange(r.0 as int, r.1 as int) == trim(s@.subrange(from as int, to as int)),
{
    let mut a = from;
    while a < to && is_space_exec(s.get_char(a))
        invariant
            from <= a <= to <= s@.len(),
            trim_start(s@.subrange(from as int, to as int)) == trim_start(s@.subrange(a as int, to as int)),
        decreases to - a,
    {
        assert(s@.subrange(a as int, to as int).drop_first() =~= s@.subrange(a + 1, to as int));
        a += 1;
    }
    let mut b = to;
    while b > a && is_space_exec(s.get_char(b - 1))
        invariant
            from <= a <= b <= to <= s@.len(),
            trim_end(s@.subrange(a as int, to as int)) == trim_end(s@.subrange(a as int, b as int)),
        decreases b - a,
    {
        assert(s@.subrange(a as int, b as int).drop_last() =~= s@.subrange(a as int, b - 1));
        b -= 1;
    }
    (a, b)
}

/// Whether `s[from..to]`, lowercased in ASCII, is the word `w`.
fn matches_word_at(s: &str, from: usize, to: usize, w: &str) -> (r: bool)
    requires
        from <= to <= s@.len(),
    ensures
        r == matches_word(s@.subrange(from as int, to as int), w@),
{
    let n = to - from;
    if n != w.unicode_len() {
        return false;
    }
    let ghost t = s@.subrange(from as int, to as int);
    let mut i: usize = 0;
    while i < n
        invariant
            n == to - from,
            from <= to <= s@.len(),
            n == w@.len(),
            t == s@.subrange(from as int, to as int),
            i <= n,
            forall|j: int| 0 <= j < i ==> ascii_lower(#[trigger] t[j]) == w@[j] as u32,
        decreases n - i,
    {
        if ascii_lower_exec(s.get_char(from + i)) != w.get_char(i) as u32 {
            assert(ascii_lower(t[i as int]) != w@[i as int] as u32);
            return false;
        }
        i += 1;
    }
    true
}

fn row_at(s: &str, from: usize, to: usize) -> (r: Option<Row>)
    requires
        from <= to <= s@.len(),
    ensures
        r == row_of(s@.subrange(from as int, to as int)),
{
    let (a, b) = trim_range(s, from, to);
    if matches_word_at(s, a, b, "left") {
        Some(Row::Left)
    } else if matches_word_at(s, a, b, "right") {
        Some(Row::Right)
    } else if matches_word_at(s, a, b, "center") {
        Some(Row::Center)
    } else {
        None
    }
}

fn column_at(s: &str, from: usize, to: usize) -> (r: Option<Column>)
    requires
        from <= to <= s@.len(),
    ensures
        r == column_of(s@.subrange(from as int, to as int)),
{
    let (a, b) = trim_range(s, from, to);
    if matches_word_at(s, a, b, "top") {
        Some(Column::Top)
    } else if matches_word_at(s, a, b, "bottom") {
        Some(Column::Bottom)
    } else if matches_word_at(s, a, b, "center") {
        Some(Column::Center)
    } else {
        None
    }
}

impl Row {
    pub open spec fn pixel(self) -> Pixel {
        match self {
            Row::Left => 0,
            Row::Center => 1,
            Row::Right => 2,
        }
    }

    /// Reads a row direction, ignoring surrounding white space and ASCII case.
    pub fn parse_str(s: &str) -> (r: Result<Row, DirectionError>)
        ensures
            r == match row_of(s@) {
                Some(row) => Ok(row),
                None => Err(DirectionError::UnknownRow),
            },
    {
        let n = s.unicode_len();
        assert(s@.subrange(0, n as int) =~= s@);
        match row_at(s, 0, n) {
            Some(row) => Ok(row),
            None => Err(DirectionError::UnknownRow),
        }
    }

    pub fn as_pixel(&self) -> (r: Pixel)
        ensures
            r == self.pixel(),
    {
        match self {
            Row::Left => 0,
            Row::Center => 1,
            Row::Right => 2,
        }
    }
}

impl Column {
    pub open spec fn pixel(self) -> Pixel {
        match self {
            Column::Top => 0,
            Column::Center => 1,
            Column::Bottom => 2,
        }
    }

    /// Reads a column direction, ignoring surrounding white space and ASCII
    /// case.
    pub fn parse_str(s: &str) -> (r: Result<Column, DirectionError>)
        ensures
            r == match column_of(s@) {
                Some(column) => Ok(column),
                None => Err(DirectionError::UnknownColumn),
            },
    {
        let n = s.unicode_len();
        assert(s@.subrange(0, n as int) =~= s@);
        match column_at(s, 0, n) {
            Some(column) => Ok(column),
            None => Err(DirectionError::UnknownColumn),
        }
    }

    pub fn as_pixel(&self) -> (r: Pixel)
        ensures
            r == self.pixel(),
    {
        match self {
            Column::Top => 0,
            Column::Center => 1,
            Column::Bottom => 2,
        }
    }
}

/// Number of `-` characters in `s`.
pub open spec fn dash_count(s: Seq<char>) -> nat
    decreases s.len(),
{
    if s.len() == 0 {
        0
    } else {
        dash_count(s.drop_last()) + if s.last() == '-' {
            1nat
        } else {
            0nat
        }
    }
}

/// Position of the last `-` in `s`, or -1 where there is none.
pub open spec fn last_dash(s: Seq<char>) -> int
    decreases s.len(),
{
    if s.len() == 0 {
        -1
    } else if s.last() == '-' {
        s.len() - 1
    } else {
        last_dash(s.drop_last())
    }
}

/// What a coordinate phrase means. Without `-`, only `center` is accepted.
/// With one `-`, the first token is read as the row direction and the second
/// as the column direction; where that fails, the first is read as the column
/// direction and the second as the row direction, and that reading's error
/// is reported.
pub open spec fn parse_direction_spec(s: Seq<char>) -> Result<(Row, Column), DirectionError> {
    if dash_count(s) == 0 {
        if matches_word(trim(s), "center"@) {
            Ok((Row::Center, Column::Center))
        } else {
            Err(DirectionError::UnknownDirection)
        }
    } else if dash_count(s) > 1 {
        Err(DirectionError::TooManyParts)
    } else {
        let k = last_dash(s);
        let first = s.subrange(0, k);
        let second = s.subrange(k + 1, s.len() as int);
        match (row_of(first), column_of(second)) {
            (Some(row), Some(column)) => Ok((row, column)),
            _ => match column_of(first) {
                None => Err(DirectionError::UnknownColumn),
                Some(column) => match row_of(second) {
                    None => Err(DirectionError::UnknownRow),
                    Some(row) => Ok((row, column)),
                },
            },
        }
    }
}

/// The position that a row and a column direction name together.
pub open spec fn coord_of(row: Row, column: Column) -> PixelCoord {
    PixelCoord { x: row.pixel(), y: column.pixel() }
}

/// Reads a coordinate phrase such as `"top-left"`, `"left-top"` or `"center"`.
pub fn parse_direction(s: &str) -> (r: Result<(Row, Column), DirectionError>)
    ensures
        r == parse_direction_spec(s@),
{
    let n = s.unicode_len();
    let mut count: usize = 0;
    let mut pos: usize = 0;
    let mut i: usize = 0;
    while i < n
        invariant
            n == s@.len(),
            i <= n,
            count <= i,
            count == dash_count(s@.subrange(0, i as int)),
            count > 0 ==> pos == last_dash(s@.subrange(0, i as int)),
            count > 0 ==> pos < i,
        decreases n - i,
    {
        assert(s@.subrange(0, i + 1).drop_last() =~= s@.subrange(0, i as int));
        if s.get_char(i) == '-' {
            count += 1;
            pos = i;
        }
        i += 1;
    }
    assert(s@.subrange(0, n as int) =~= s@);
    if count == 0 {
        let (a, b) = trim_range(s, 0, n);
        if matches_word_at(s, a, b, "center") {
            Ok((Row::Center, Column::Center))
        } else {
            Err(DirectionError::UnknownDirection)
        }
    } else if count > 1 {
        Err(DirectionError::TooManyParts)
    } else {
        match (row_at(s, 0, pos), column_at(s, pos + 1, n)) {
            (Some(row), Some(column)) => Ok((row, column)),
            _ => match column_at(s, 0, pos) {
                None => Err(DirectionError::UnknownColumn),
                Some(column) => match row_at(s, pos + 1, n) {
                    None => Err(DirectionError::UnknownRow),
                    Some(row) => Ok((row, column)),
                },
            },
        }
    }
}

impl PixelCoord {
    /// Reads a coordinate phrase and gives the position it names.
    pub fn try_from(s: &str) -> (r: Result<PixelCoord, DirectionError>)
        ensures
            r == match parse_direction_spec(s@) {
                Ok((row, column)) => Ok(coord_of(row, column)),
                Err(e) => Err(e),
            },
            r matches Ok(c) ==> c.x < 3 && c.y < 3,
    {
        match parse_direction(s) {
            Ok((row, column)) => Ok(PixelCoord { x: row.as_pixel(), y: column.as_pixel() }),
            Err(e) => Err(e),
        }
    }
}

/// A phrase with two or more `-` is rejected as having too many parts.
pub proof fn lemma_two_dashes_too_many_parts(s: Seq<char>)
    requires
        dash_count(s) >= 2,
    ensures
        parse_direction_spec(s) == Err::<(Row, Column), DirectionError>(DirectionError::TooManyParts),
{
}

/// The lowercase word for a row direction.
pub open spec fn row_word(row: Row) -> Seq<char> {
    match row {
        Row::Left => "left"@,
        Row::Right => "right"@,
        Row::Center => "center"@,
    }
}

/// The lowercase word for a column direction.
pub open spec fn column_word(column: Column) -> Seq<char> {
    match column {
        Column::Top => "top"@,
        Column::Bottom => "bottom"@,
        Column::Center => "center"@,
    }
}

proof fn lemma_words()
    ensures
        "left"@ == seq!['l', 'e', 'f', 't'],
        "right"@ == seq!['r', 'i', 'g', 'h', 't'],
        "center"@ == seq!['c', 'e', 'n', 't', 'e', 'r'],
        "top"@ == seq!['t', 'o', 'p'],
        "bottom"@ == seq!['b', 'o', 't', 't', 'o', 'm'],
{
    reveal_strlit("left");
    reveal_strlit("right");
    reveal_strlit("center");
    reveal_strlit("top");
    reveal_strlit("bottom");
    assert("left"@ =~= seq!['l', 'e', 'f', 't']);
    assert("right"@ =~= seq!['r', 'i', 'g', 'h', 't']);
    assert("center"@ =~= seq!['c', 'e', 'n', 't', 'e', 'r']);
    assert("top"@ =~= seq!['t', 'o', 'p']);
    assert("bottom"@ =~= seq!['b', 'o', 't', 't', 'o', 'm']);
}

/// A token made of lowercase ASCII letters is its own trimmed form.
proof fn lemma_trim_letters(t: Seq<char>)
    requires
        t.len() > 0,
        forall|i: int| 0 <= i < t.len() ==> 'a' <= #[trigger] t[i] <= 'z',
    ensures
        trim(t) == t,
{
    assert(!is_space(t[0]));
    assert(trim_start(t) == t);
    assert(!is_space(t.last()));
}

proof fn lemma_matches_self(t: Seq<char>)
    requires
        forall|i: int| 0 <= i < t.len() ==> 'a' <= #[trigger] t[i] <= 'z',
    ensures
        matches_word(t, t),
{
}

/// Each word names its own direction, and a row word names a column
/// direction only where both are `center`.
proof fn lemma_word_directions(row: Row, column: Column)
    ensures
        row_of(row_word(row)) == Some(row),
        column_of(column_word(column)) == Some(column),
        row_of(column_word(column)) is Some ==> column == Column::Center,
        column_of(row_word(row)) is Some ==> row == Row::Center,
        forall|i: int| 0 <= i < row_word(row).len() ==> 'a' <= #[trigger] row_word(row)[i] <= 'z',
        forall|i: int| 0 <= i < column_word(column).len() ==> 'a' <= #[trigger] column_word(column)[i] <= 'z',
{
    lemma_words();
    let r = row_word(row);
    let c = column_word(column);
    lemma_trim_letters(r);
    lemma_trim_letters(c);
    lemma_matches_self(r);
    lemma_matches_self(c);
    if matches_word(r, "left"@) {
        assert(r[0] == 'l');
    }
    if matches_word(r, "right"@) {
        assert(r[0] == 'r');
    }
    if matches_word(c, "top"@) {
        assert(c[0] == 't');
    }
    if matches_word(c, "bottom"@) {
        assert(c[0] == 'b');
    }
    if matches_word(c, "left"@) {
        assert(c[0] == 'l');
    }
    if matches_word(c, "right"@) {
        assert(c[0] == 'r');
    }
    if matches_word(r, "top"@) {
        assert(r[0] == 't');
    }
    if matches_word(r, "bottom"@) {
        assert(r[0] == 'b');
    }
}

/// Joining two dash-free tokens with `-` gives one dash, between them.
proof fn lemma_join(a: Seq<char>, b: Seq<char>)
    requires
        forall|i: int| 0 <= i < a.len() ==> #[trigger] a[i] != '-',
        forall|i: int| 0 <= i < b.len() ==> #[trigger] b[i] != '-',
    ensures
        dash_count(a + seq!['-'] + b) == 1,
        last_dash(a + seq!['-'] + b) == a.len(),
    decreases b.len(),
{
    let s = a + seq!['-'] + b;
    if b.len() == 0 {
        assert(s.drop_last() =~= a);
        lemma_dash_free(a);
    } else {
        assert(s.drop_last() =~= a + seq!['-'] + b.drop_last());
        assert(s.last() == b.last());
        lemma_join(a, b.drop_last());
    }
}

proof fn lemma_dash_free(a: Seq<char>)
    requires
        forall|i: int| 0 <= i < a.len() ==> #[trigger] a[i] != '-',
    ensures
        dash_count(a) == 0,
    decreases a.len(),
{
    if a.len() > 0 {
        lemma_dash_free(a.drop_last());
    }
}

/// A column word and a row word joined by `-` name the same position in
/// either order.
pub proof fn lemma_order_insensitive(row: Row, column: Column)
    ensures
        parse_direction_spec(column_word(column) + seq!['-'] + row_word(row)) == Ok::<
            (Row, Column),
            DirectionError,
        >((row, column)),
        parse_direction_spec(row_word(row) + seq!['-'] + column_word(column)) == Ok::<
            (Row, Column),
            DirectionError,
        >((row, column)),
{
    lemma_word_directions(row, column);
    let r = row_word(row);
    let c = column_word(column);
    lemma_join(c, r);
    lemma_join(r, c);
    let s1 = c + seq!['-'] + r;
    assert(s1.subrange(0, c.len() as int) =~= c);
    assert(s1.subrange(c.len() as int + 1, s1.len() as int) =~= r);
    let s2 = r + seq!['-'] + c;
    assert(s2.subrange(0, r.len() as int) =~= r);
    assert(s2.subrange(r.len() as int + 1, s2.len() as int) =~= c);
}

} // verus!
