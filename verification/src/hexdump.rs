//! Dumping packets as text.

use vstd::prelude::*;

use crate::bytes;

verus! {

/// Width of the first and the last line.
pub const PRELAND_WIDTH: usize = 70;

/// `[kernel] `
pub open spec fn prefix() -> Seq<u8> {
    seq![91u8, 107, 101, 114, 110, 101, 108, 93, 32]
}

/// ` hexdump `
pub open spec fn title() -> Seq<u8> {
    seq![32u8, 104, 101, 120, 100, 117, 109, 112, 32]
}

/// ` hexdump end `
pub open spec fn end_title() -> Seq<u8> {
    seq![32u8, 104, 101, 120, 100, 117, 109, 112, 32, 101, 110, 100, 32]
}

/// `n` times the same character.
pub open spec fn repeated(c: u8, n: int) -> Seq<u8> {
    Seq::new(n as nat, |i: int| c)
}

/// The text between dashes, in the middle of a line of the full width.
pub open spec fn centered(text: Seq<u8>) -> Seq<u8> {
    let room = PRELAND_WIDTH - text.len();
    repeated(45, room / 2) + text + repeated(45, room - room / 2)
}

/// The lower-case hexadecimal digit of a value.
pub open spec fn hex_digit(n: int) -> u8 {
    if n < 10 {
        (48 + n) as u8
    } else {
        (87 + n) as u8
    }
}

/// Byte `i` in hexadecimal, and a space; blank past the end.
pub open spec fn hex_cell(data: Seq<u8>, i: int) -> Seq<u8> {
    if i < data.len() {
        seq![hex_digit(data[i] as int / 16), hex_digit(data[i] as int % 16), 32u8]
    } else {
        seq![32u8, 32, 32]
    }
}

/// Byte `i` as a character, where it is printable; blank past the end.
pub open spec fn text_cell(data: Seq<u8>, i: int) -> Seq<u8> {
    if i >= data.len() {
        seq![32u8, 32, 32]
    } else if 0x20 <= data[i] <= 0x7e {
        seq![data[i]]
    } else {
        seq![46u8]
    }
}

/// The hexadecimal cells of `n` bytes from `offset` on.
pub open spec fn hex_cells(data: Seq<u8>, offset: int, n: nat) -> Seq<u8>
    decreases n,
{
    if n == 0 {
        Seq::empty()
    } else {
        hex_cells(data, offset, (n - 1) as nat) + hex_cell(data, offset + n - 1)
    }
}

/// The character cells of `n` bytes from `offset` on.
pub open spec fn text_cells(data: Seq<u8>, offset: int, n: nat) -> Seq<u8>
    decreases n,
{
    if n == 0 {
        Seq::empty()
    } else {
        text_cells(data, offset, (n - 1) as nat) + text_cell(data, offset + n - 1)
    }
}

/// The line of the sixteen bytes from `offset` on.
pub open spec fn row(data: Seq<u8>, offset: int) -> Seq<u8> {
    prefix() + hex_cells(data, offset, 16) + repeated(32, 6) + text_cells(data, offset, 16)
}

/// How many rows `n` bytes take.
pub open spec fn row_count(n: int) -> int {
    (n + 15) / 16
}

/// The lower-case hexadecimal digit of a value.
fn digit(n: u8) -> (r: u8)
    requires
        n < 16,
    ensures
        r == hex_digit(n as int),
{
    if n < 10 {
        48 + n
    } else {
        87 + n
    }
}

fn push_repeated(line: &mut Vec<u8>, c: u8, n: usize)
    ensures
        final(line)@ == old(line)@ + repeated(c, n as int),
{
    let ghost before = line@;
    let mut i: usize = 0;
    while i < n
        invariant
            i <= n,
            line@ == before + repeated(c, i as int),
        decreases n - i,
    {
        line.push(c);
        i = i + 1;
        assert(line@ =~= before + repeated(c, i as int));
    }
}

fn new_line() -> (line: Vec<u8>)
    ensures
        line@ == prefix(),
{
    let text: [u8; 9] = [91, 107, 101, 114, 110, 101, 108, 93, 32];
    let mut line: Vec<u8> = Vec::new();
    bytes::push_all(&mut line, &text);
    assert(line@ =~= prefix());
    line
}

/// A line with a title between dashes.
fn title_line(text: &[u8]) -> (line: Vec<u8>)
    requires
        text@.len() <= PRELAND_WIDTH,
    ensures
        line@ == prefix() + centered(text@),
{
    let room: usize = PRELAND_WIDTH - text.len();
    let mut line = new_line();
    push_repeated(&mut line, 45, room / 2);
    bytes::push_all(&mut line, text);
    push_repeated(&mut line, 45, room - room / 2);
    assert(line@ =~= prefix() + centered(text@));
    line
}

/// The line of the sixteen bytes from `offset` on.
fn row_line(data: &[u8], offset: usize) -> (line: Vec<u8>)
    requires
        offset < data@.len(),
    ensures
        line@ == row(data@, offset as int),
{
    let rest: usize = data.len() - offset;
    let mut line = new_line();
    let mut i: usize = 0;
    while i < 16
        invariant
            i <= 16,
            rest == data@.len() - offset,
            data@.len() <= usize::MAX,
            offset < data@.len(),
            line@ == prefix() + hex_cells(data@, offset as int, i as nat),
        decreases 16 - i,
    {
        let ghost before = line@;
        if i < rest {
            let b = data[offset + i];
            line.push(digit(b / 16));
            line.push(digit(b % 16));
            line.push(32);
        } else {
            push_repeated(&mut line, 32, 3);
        }
        assert(line@ =~= before + hex_cell(data@, offset + i));
        i = i + 1;
        assert(line@ =~= prefix() + hex_cells(data@, offset as int, i as nat));
    }
    push_repeated(&mut line, 32, 6);
    let ghost start = line@;
    let mut i: usize = 0;
    while i < 16
        invariant
            i <= 16,
            rest == data@.len() - offset,
            data@.len() <= usize::MAX,
            offset < data@.len(),
            line@ == start + text_cells(data@, offset as int, i as nat),
        decreases 16 - i,
    {
        let ghost before = line@;
        if i < rest {
            let b = data[offset + i];
            if b >= 0x20 && b <= 0x7e {
                line.push(b);
            } else {
                line.push(46);
            }
        } else {
            push_repeated(&mut line, 32, 3);
        }
        assert(line@ =~= before + text_cell(data@, offset + i));
        i = i + 1;
        assert(line@ =~= start + text_cells(data@, offset as int, i as nat));
    }
    assert(line@ =~= row(data@, offset as int));
    line
}

/// The lines of a dump: a title, a row per sixteen bytes, and an end.
pub fn hexdump(data: &[u8]) -> (lines: Vec<Vec<u8>>)
    ensures
        lines@.len() == row_count(data@.len() as int) + 2,
        lines@[0]@ == prefix() + centered(title()),
        forall|i: int|
            0 <= i < row_count(data@.len() as int) ==> (#[trigger] lines@[i + 1])@ == row(
                data@,
                i * 16,
            ),
        lines@.last()@ == prefix() + centered(end_title()),
{
    let first: [u8; 9] = [32, 104, 101, 120, 100, 117, 109, 112, 32];
    let last: [u8; 13] = [32, 104, 101, 120, 100, 117, 109, 112, 32, 101, 110, 100, 32];
    assert(first@ =~= title());
    assert(last@ =~= end_title());
    let mut lines: Vec<Vec<u8>> = Vec::new();
    lines.push(title_line(&first));
    let rows: usize = data.len() / 16 + (if data.len() % 16 == 0 {
        0
    } else {
        1
    });
    let mut i: usize = 0;
    while i < rows
        invariant
            i <= rows,
            rows == row_count(data@.len() as int),
            data@.len() <= usize::MAX,
            lines@.len() == i + 1,
            lines@[0]@ == prefix() + centered(title()),
            forall|j: int| 0 <= j < i ==> (#[trigger] lines@[j + 1])@ == row(data@, j * 16),
        decreases rows - i,
    {
        lines.push(row_line(data, i * 16));
        i = i + 1;
    }
    lines.push(title_line(&last));
    lines
}

/// Both title lines have the same width.
pub proof fn law_title_lines_have_the_same_width()
    ensures
        centered(title()).len() == PRELAND_WIDTH,
        centered(end_title()).len() == PRELAND_WIDTH,
{
}

/// Every byte is dumped: it is readable in the hexadecimal cells of its row.
pub proof fn law_every_byte_is_dumped(data: Seq<u8>, i: int)
    requires
        0 <= i < data.len(),
    ensures
        0 <= i / 16 < row_count(data.len() as int),
        hex_cells(data, i / 16 * 16, 16).subrange(i % 16 * 3, i % 16 * 3 + 3) == hex_cell(data, i),
{
    lemma_cell_position(data, i / 16 * 16, 16, i % 16);
}

proof fn lemma_cell_position(data: Seq<u8>, offset: int, n: nat, k: int)
    requires
        0 <= k < n,
    ensures
        hex_cells(data, offset, n).len() == n * 3,
        hex_cells(data, offset, n).subrange(k * 3, k * 3 + 3) == hex_cell(data, offset + k),
    decreases n,
{
    if n > 1 {
        let inner = if k < n - 1 {
            k
        } else {
            0
        };
        lemma_cell_position(data, offset, (n - 1) as nat, inner);
    } else {
        assert(hex_cells(data, offset, 0).len() == 0);
    }
    let all = hex_cells(data, offset, n);
    assert(all.subrange(k * 3, k * 3 + 3) =~= hex_cell(data, offset + k)) by {
        if k < n - 1 {
            let before = hex_cells(data, offset, (n - 1) as nat);
            assert(all.subrange(k * 3, k * 3 + 3) =~= before.subrange(k * 3, k * 3 + 3));
        }
    }
}

/// Hexadecimal digits are the ten digits and the small letters from a to f.
pub proof fn law_hex_digits(n: int)
    requires
        0 <= n < 16,
    ensures
        n < 10 ==> hex_digit(n) - 48 == n,
        n >= 10 ==> hex_digit(n) - 97 == n - 10,
{
}

/// A byte is shown as two digits, the upper half first, and a blank; behind the
/// data stand three blanks. As text a printable character stands for itself and
/// any other byte as a dot.
pub proof fn law_cells_show_a_byte(data: Seq<u8>, i: int)
    requires
        0 <= i,
    ensures
        hex_cell(data, i).len() == 3,
        hex_cell(data, i)[2] == 32,
        i < data.len() ==> hex_cell(data, i)[0] == hex_digit(data[i] as int / 16) && hex_cell(
            data,
            i,
        )[1] == hex_digit(data[i] as int % 16),
        i >= data.len() ==> hex_cell(data, i) == seq![32u8, 32, 32] && text_cell(data, i) == seq![
            32u8,
            32,
            32,
        ],
        i < data.len() && 32 <= data[i] < 127 ==> text_cell(data, i) == seq![data[i]],
        i < data.len() && (data[i] < 32 || data[i] >= 127) ==> text_cell(data, i) == seq![46u8],
{
}

/// A row is the prefix, sixteen cells of three characters, six blanks, and the
/// sixteen bytes as text.
pub proof fn law_row_layout(data: Seq<u8>, offset: int, k: int)
    requires
        0 <= offset,
        0 <= k < 16,
    ensures
        ({
            let r = row(data, offset);
            &&& r.subrange(0, 9) == seq![91u8, 107, 101, 114, 110, 101, 108, 93, 32]
            &&& r.subrange(9 + 3 * k, 12 + 3 * k) == hex_cell(data, offset + k)
            &&& r.subrange(57, 63) == seq![32u8, 32, 32, 32, 32, 32]
            &&& r.skip(63) == text_cells(data, offset, 16)
            &&& offset + 16 <= data.len() ==> r.len() == 79 && r.skip(63 + k).take(1) == text_cell(
                data,
                offset + k,
            )
        }),
{
    let r = row(data, offset);
    let h = hex_cells(data, offset, 16);
    let t = text_cells(data, offset, 16);
    lemma_hex_cells_at(data, offset, 16, k);
    assert(r.subrange(0, 9) =~= seq![91u8, 107, 101, 114, 110, 101, 108, 93, 32]);
    assert(r.subrange(9 + 3 * k, 12 + 3 * k) =~= h.subrange(3 * k, 3 * k + 3));
    assert(r.subrange(57, 63) =~= seq![32u8, 32, 32, 32, 32, 32]);
    assert(r.skip(63) =~= t);
    if offset + 16 <= data.len() {
        lemma_text_cells_at(data, offset, 16, k);
        assert(r.skip(63 + k).take(1) =~= t.subrange(k, k + 1));
    }
}

/// Where a cell stands among the cells of a row.
proof fn lemma_hex_cells_at(data: Seq<u8>, offset: int, n: nat, k: int)
    requires
        0 <= k < n,
    ensures
        hex_cells(data, offset, n).len() == 3 * n,
        hex_cells(data, offset, n).subrange(3 * k, 3 * k + 3) == hex_cell(data, offset + k),
    decreases n,
{
    let before = hex_cells(data, offset, (n - 1) as nat);
    let now = hex_cells(data, offset, n);
    if n > 1 {
        lemma_hex_cells_at(data, offset, (n - 1) as nat, if k < n - 1 { k } else { 0 });
    } else {
        assert(before.len() == 0);
    }
    if k < n - 1 {
        assert(now.subrange(3 * k, 3 * k + 3) =~= before.subrange(3 * k, 3 * k + 3));
    } else {
        assert(now.subrange(3 * k, 3 * k + 3) =~= hex_cell(data, offset + k));
    }
}

/// Where a character stands in the text of a full row.
proof fn lemma_text_cells_at(data: Seq<u8>, offset: int, n: nat, k: int)
    requires
        0 <= offset,
        0 <= k < n,
        offset + n <= data.len(),
    ensures
        text_cells(data, offset, n).len() == n,
        text_cells(data, offset, n).subrange(k, k + 1) == text_cell(data, offset + k),
    decreases n,
{
    let before = text_cells(data, offset, (n - 1) as nat);
    let now = text_cells(data, offset, n);
    if n > 1 {
        lemma_text_cells_at(data, offset, (n - 1) as nat, if k < n - 1 { k } else { 0 });
    } else {
        assert(before.len() == 0);
    }
    if k < n - 1 {
        assert(now.subrange(k, k + 1) =~= before.subrange(k, k + 1));
    } else {
        assert(now.subrange(k, k + 1) =~= text_cell(data, offset + k));
    }
}

/// A title stands in the middle of 70 characters, with dashes around it, one
/// more behind than in front where they do not come out even.
pub proof fn law_title_is_centered(text: Seq<u8>, i: int)
    requires
        text.len() <= 70,
        0 <= i < 70,
    ensures
        ({
            let c = centered(text);
            let front = (70 - text.len()) / 2;
            &&& c.len() == 70
            &&& front <= i < front + text.len() ==> c[i] == text[i - front]
            &&& i < front || front + text.len() <= i ==> c[i] == 45
        }),
{
}

/// There are as few rows of sixteen bytes as hold all the data.
pub proof fn law_rows_hold_the_data(n: int)
    requires
        n >= 0,
    ensures
        16 * row_count(n) >= n,
        16 * row_count(n) < n + 16,
{
}

/// In a last row that is not full, the text shows the bytes there are, and three
/// blanks for each one that is missing.
pub proof fn law_last_row_text(data: Seq<u8>, offset: int, k: int)
    requires
        0 <= offset < data.len() < offset + 16,
        0 <= k,
    ensures
        ({
            let there = data.len() - offset;
            let t = text_cells(data, offset, 16);
            &&& t.len() == there + 3 * (16 - there)
            &&& k < there ==> t.subrange(k, k + 1) == text_cell(data, offset + k)
            &&& there <= k < t.len() ==> t[k] == 32
        }),
{
    let there = data.len() - offset;
    if k < there {
        lemma_text_cells_at(data, offset, there as nat, k);
    } else {
        lemma_text_cells_at(data, offset, there as nat, 0);
    }
    lemma_missing_text_cells(data, offset, 16);
    let front = text_cells(data, offset, there as nat);
    let t = text_cells(data, offset, 16);
    if k < there {
        assert(t.subrange(k, k + 1) =~= front.subrange(k, k + 1));
    }
}

/// The text behind the end of the data.
proof fn lemma_missing_text_cells(data: Seq<u8>, offset: int, n: nat)
    requires
        0 <= offset < data.len() <= offset + n,
    ensures
        ({
            let there = data.len() - offset;
            let front = text_cells(data, offset, there as nat);
            let t = text_cells(data, offset, n);
            &&& t.len() == front.len() + 3 * (n - there)
            &&& forall|k: int| 0 <= k < front.len() ==> t[k] == front[k]
            &&& forall|k: int| front.len() <= k < t.len() ==> t[k] == 32
        }),
    decreases n,
{
    let there = data.len() - offset;
    if n > there {
        lemma_missing_text_cells(data, offset, (n - 1) as nat);
        assert(text_cell(data, offset + n - 1) == seq![32u8, 32, 32]);
    }
}

} // verus!
