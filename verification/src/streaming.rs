//! The head of a streaming clone.
//!
//! A streaming clone sends the changelog as two files, an index and its
//! data. The response starts with a line that says all is well and a line
//! with the number of files and their total size; each file starts with a
//! line of its name, a zero byte and its size.

use vstd::prelude::*;

verus! {

/// A number in decimal digits.
pub open spec fn decimal(n: nat) -> Seq<u8>
    decreases n,
{
    if n < 10 {
        seq![(48 + n) as u8]
    } else {
        decimal(n / 10).push((48 + n % 10) as u8)
    }
}

/// A number in decimal digits.
pub fn decimal_text(n: u128) -> (text: Vec<u8>)
    ensures
        text@ == decimal(n as nat),
    decreases n,
{
    if n < 10 {
        let mut text: Vec<u8> = Vec::new();
        text.push(48 + n as u8);
        assert(text@ =~= decimal(n as nat));
        text
    } else {
        let mut text = decimal_text(n / 10);
        text.push(48 + (n % 10) as u8);
        text
    }
}

/// The first line of the response: all is well.
pub open spec fn ok_line() -> Seq<u8> {
    seq![48u8, 10u8]
}

/// The second line of the response: the number of files, a space, and the
/// total size of the files.
pub open spec fn totals_line(index_size: nat, data_size: nat) -> Seq<u8> {
    decimal(2) + seq![32u8] + decimal(index_size + data_size) + seq![10u8]
}

/// The line that starts a file: its name, a zero byte, and its size.
pub open spec fn file_line(name: Seq<u8>, size: nat) -> Seq<u8> {
    name + seq![0u8] + decimal(size) + seq![10u8]
}

fn append(out: &mut Vec<u8>, bytes: &Vec<u8>)
    ensures
        final(out)@ == old(out)@ + bytes@,
{
    let mut i: usize = 0;
    assert(out@ =~= old(out)@ + bytes@.take(0));
    while i < bytes.len()
        invariant
            i <= bytes@.len(),
            out@ == old(out)@ + bytes@.take(i as int),
        decreases bytes@.len() - i,
    {
        out.push(bytes[i]);
        assert(bytes@.take(i + 1) =~= bytes@.take(i as int).push(bytes@[i as int]));
        assert(out@ =~= old(out)@ + bytes@.take(i + 1));
        i += 1;
    }
    assert(bytes@.take(bytes@.len() as int) =~= bytes@);
}

/// The two lines that start the response to a streaming clone of a
/// changelog with an index and data of the given sizes.
pub fn response_header(index_size: usize, data_size: usize) -> (lines: Vec<Vec<u8>>)
    ensures
        lines@.len() == 2,
        lines@[0]@ == ok_line(),
        lines@[1]@ == totals_line(index_size as nat, data_size as nat),
{
    let mut first: Vec<u8> = Vec::new();
    first.push(48u8);
    first.push(10u8);
    assert(first@ =~= ok_line());
    let total: u128 = index_size as u128 + data_size as u128;
    let mut second = decimal_text(2);
    second.push(32u8);
    append(&mut second, &decimal_text(total));
    second.push(10u8);
    assert(second@ =~= totals_line(index_size as nat, data_size as nat));
    let mut lines: Vec<Vec<u8>> = Vec::new();
    lines.push(first);
    lines.push(second);
    lines
}

/// The line that starts a file of the response.
pub fn file_header(name: &Vec<u8>, size: usize) -> (line: Vec<u8>)
    ensures
        line@ == file_line(name@, size as nat),
{
    let mut line: Vec<u8> = Vec::new();
    append(&mut line, name);
    line.push(0u8);
    append(&mut line, &decimal_text(size as u128));
    line.push(10u8);
    assert(line@ =~= file_line(name@, size as nat));
    line
}

} // verus!
