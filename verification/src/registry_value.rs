//! The decoded value of an entry.

use vstd::prelude::*;
use vstd::string::StringExecFns;
use crate::string_codec::{join_with, strings_view};
use crate::trusted::{debug_bytes, debug_strings, format_debug_bytes, format_debug_strings, hex_encode};

verus! {

/// A registry value, one variant for each data type.
#[derive(Debug, PartialEq, Eq)]
pub enum RegistryValue {
    RegNone,
    RegUnknown,
    RegSZ(String),
    RegExpandSZ(String),
    RegBinary(Vec<u8>),
    RegDWord(u32),
    RegDWordBigEndian(u32),
    RegLink(String),
    RegMultiSZ(Vec<String>),
    RegResourceList(String),
    RegFullResourceDescriptor(String),
    RegResourceRequirementsList(String),
    RegQWord(u64),
    RegFileTime,
}

/// What a `RegistryValue` stands for: the same variants over texts and
/// sequences of bytes.
pub enum ValueModel {
    RegNone,
    RegUnknown,
    RegSZ(Seq<char>),
    RegExpandSZ(Seq<char>),
    RegBinary(Seq<u8>),
    RegDWord(u32),
    RegDWordBigEndian(u32),
    RegLink(Seq<char>),
    RegMultiSZ(Seq<Seq<char>>),
    RegResourceList(Seq<char>),
    RegFullResourceDescriptor(Seq<char>),
    RegResourceRequirementsList(Seq<char>),
    RegQWord(u64),
    RegFileTime,
}

impl View for RegistryValue {
    type V = ValueModel;

    open spec fn view(&self) -> ValueModel {
        match self {
            RegistryValue::RegNone => ValueModel::RegNone,
            RegistryValue::RegUnknown => ValueModel::RegUnknown,
            RegistryValue::RegSZ(s) => ValueModel::RegSZ(s@),
            RegistryValue::RegExpandSZ(s) => ValueModel::RegExpandSZ(s@),
            RegistryValue::RegBinary(b) => ValueModel::RegBinary(b@),
            RegistryValue::RegDWord(n) => ValueModel::RegDWord(*n),
            RegistryValue::RegDWordBigEndian(n) => ValueModel::RegDWordBigEndian(*n),
            RegistryValue::RegLink(s) => ValueModel::RegLink(s@),
            RegistryValue::RegMultiSZ(items) => ValueModel::RegMultiSZ(strings_view(items@)),
            RegistryValue::RegResourceList(s) => ValueModel::RegResourceList(s@),
            RegistryValue::RegFullResourceDescriptor(s) => ValueModel::RegFullResourceDescriptor(s@),
            RegistryValue::RegResourceRequirementsList(s) => ValueModel::RegResourceRequirementsList(
                s@,
            ),
            RegistryValue::RegQWord(n) => ValueModel::RegQWord(*n),
            RegistryValue::RegFileTime => ValueModel::RegFileTime,
        }
    }
}

/// The digit for a number below sixteen: `0` to `9`, then `a` to `f`.
pub open spec fn hex_digit(d: int) -> char {
    if d < 10 {
        (0x30 + d) as char
    } else {
        (0x61 + d - 10) as char
    }
}

/// The bytes in hexadecimal, two digits for each byte, high digit first.
pub open spec fn hex_bytes(bytes: Seq<u8>) -> Seq<char>
    decreases bytes.len(),
{
    if bytes.len() == 0 {
        Seq::empty()
    } else {
        seq![hex_digit(bytes[0] as int / 16), hex_digit(bytes[0] as int % 16)] + hex_bytes(
            bytes.skip(1),
        )
    }
}

/// The last `width` hexadecimal digits of `n`, padded with zeros in front.
pub open spec fn hex_fixed(n: nat, width: nat) -> Seq<char>
    decreases width,
{
    if width == 0 {
        Seq::empty()
    } else {
        hex_fixed(n / 16, (width - 1) as nat).push(hex_digit((n % 16) as int))
    }
}

/// `n` as a hexadecimal literal of `width` digits: `0x` and the digits.
pub open spec fn hex_literal(n: nat, width: nat) -> Seq<char> {
    seq!['0', 'x'] + hex_fixed(n, width)
}

/// `text` between double quotes, as it is.
pub open spec fn quoted(text: Seq<char>) -> Seq<char> {
    seq!['"'] + text + seq!['"']
}

/// What goes into one cell of an exported row.
#[derive(Debug, PartialEq, Eq)]
pub enum Cell {
    Empty,
    Text(String),
    U32(u32),
    U64(u64),
}

/// What a `Cell` stands for.
pub enum CellModel {
    Empty,
    Text(Seq<char>),
    U32(u32),
    U64(u64),
}

impl View for Cell {
    type V = CellModel;

    open spec fn view(&self) -> CellModel {
        match self {
            Cell::Empty => CellModel::Empty,
            Cell::Text(s) => CellModel::Text(s@),
            Cell::U32(n) => CellModel::U32(*n),
            Cell::U64(n) => CellModel::U64(*n),
        }
    }
}

/// The cell that a value is exported as. Strings go out as they are, binary
/// data as hexadecimal digits, a list of strings joined by commas, numbers
/// as numbers. The requirements list and the file time have no cell.
pub open spec fn spec_cell(v: ValueModel) -> Option<CellModel> {
    match v {
        ValueModel::RegNone => Some(CellModel::Empty),
        ValueModel::RegUnknown => Some(CellModel::Empty),
        ValueModel::RegSZ(s) => Some(CellModel::Text(s)),
        ValueModel::RegExpandSZ(s) => Some(CellModel::Text(s)),
        ValueModel::RegBinary(b) => Some(CellModel::Text(hex_bytes(b))),
        ValueModel::RegDWord(n) => Some(CellModel::U32(n)),
        ValueModel::RegDWordBigEndian(n) => Some(CellModel::U32(n)),
        ValueModel::RegLink(s) => Some(CellModel::Text(s)),
        ValueModel::RegMultiSZ(items) => Some(CellModel::Text(join_with(items, seq![',']))),
        ValueModel::RegResourceList(s) => Some(CellModel::Text(s)),
        ValueModel::RegFullResourceDescriptor(s) => Some(CellModel::Text(s)),
        ValueModel::RegResourceRequirementsList(_) => None,
        ValueModel::RegQWord(n) => Some(CellModel::U64(n)),
        ValueModel::RegFileTime => None,
    }
}

/// The text that a value is shown as. Strings are quoted, numbers are
/// hexadecimal literals of their full width, binary data is cut to its first
/// sixteen bytes. The file time has no text.
pub open spec fn spec_display(v: ValueModel) -> Option<Seq<char>> {
    match v {
        ValueModel::RegNone => Some("None"@),
        ValueModel::RegUnknown => Some("Unknown"@),
        ValueModel::RegSZ(s) => Some(quoted(s)),
        ValueModel::RegExpandSZ(s) => Some(quoted(s)),
        ValueModel::RegBinary(b) => Some(
            debug_bytes(
                if b.len() > 16 {
                    b.take(16)
                } else {
                    b
                },
            ),
        ),
        ValueModel::RegDWord(n) => Some(hex_literal(n as nat, 8)),
        ValueModel::RegDWordBigEndian(n) => Some(hex_literal(n as nat, 8)),
        ValueModel::RegLink(s) => Some(quoted(s)),
        ValueModel::RegMultiSZ(items) => Some(debug_strings(items)),
        ValueModel::RegResourceList(s) => Some(quoted(s)),
        ValueModel::RegFullResourceDescriptor(s) => Some(quoted(s)),
        ValueModel::RegResourceRequirementsList(s) => Some(quoted(s)),
        ValueModel::RegQWord(n) => Some(hex_literal(n as nat, 16)),
        ValueModel::RegFileTime => None,
    }
}

/// The hexadecimal digit for a number below sixteen.
pub fn hex_digit_char(d: u8) -> (c: char)
    requires
        d < 16,
    ensures
        c == hex_digit(d as int),
{
    if d < 10 {
        (0x30u8 + d) as char
    } else {
        (0x61u8 + (d - 10)) as char
    }
}

/// Writes `n` as `0x` and its last `width` hexadecimal digits.
pub fn format_hex(n: u64, width: usize) -> (r: String)
    ensures
        r@ == hex_literal(n as nat, width as nat),
{
    let mut digits: Vec<char> = Vec::new();
    let mut rest: u64 = n;
    let mut k: usize = 0;
    proof {
        assert(hex_fixed(n as nat, width as nat) + Seq::<char>::empty() =~= hex_fixed(
            n as nat,
            width as nat,
        ));
    }
    while k < width
        invariant
            k <= width,
            digits@.len() == k,
            hex_fixed(rest as nat, (width - k) as nat) + Seq::new(
                k as nat,
                |i: int| digits@[k - 1 - i],
            ) == hex_fixed(n as nat, width as nat),
        decreases width - k,
    {
        let d = hex_digit_char((rest % 16) as u8);
        let ghost before = Seq::new(k as nat, |i: int| digits@[k - 1 - i]);
        let ghost old_digits = digits@;
        digits.push(d);
        proof {
            let after = Seq::new((k + 1) as nat, |i: int| digits@[k - i]);
            assert(after =~= seq![d] + before);
            assert(hex_fixed(rest as nat, (width - k) as nat) == hex_fixed(
                rest as nat / 16,
                (width - k - 1) as nat,
            ).push(d));
            assert(hex_fixed(rest as nat / 16, (width - k - 1) as nat).push(d) + before
                =~= hex_fixed(rest as nat / 16, (width - k - 1) as nat) + after);
        }
        rest = rest / 16;
        k = k + 1;
    }
    let mut r = String::new();
    r.push('0');
    r.push('x');
    let mut i: usize = width;
    while i > 0
        invariant
            i <= width,
            digits@.len() == width,
            r@ == seq!['0', 'x'] + Seq::new((width - i) as nat, |j: int| digits@[width - 1 - j]),
        decreases i,
    {
        i = i - 1;
        r.push(digits[i]);
        proof {
            assert(r@ =~= seq!['0', 'x'] + Seq::new(
                (width - i) as nat,
                |j: int| digits@[width - 1 - j],
            ));
        }
    }
    proof {
        assert(hex_fixed(rest as nat, 0) =~= Seq::<char>::empty());
        assert(Seq::<char>::empty() + Seq::new(width as nat, |j: int| digits@[width - 1 - j])
            =~= Seq::new(width as nat, |j: int| digits@[width - 1 - j]));
    }
    r
}

/// Puts `text` between double quotes. Nothing in it is escaped.
pub fn quote(text: &str) -> (r: String)
    ensures
        r@ == quoted(text@),
{
    let mut r = String::new();
    r.push('"');
    r.append(text);
    r.push('"');
    proof {
        assert(r@ =~= quoted(text@));
    }
    r
}

/// Joining one more piece puts the separator and the piece at the end.
pub proof fn lemma_join_push(pieces: Seq<Seq<char>>, separator: Seq<char>, last: Seq<char>)
    requires
        pieces.len() >= 1,
    ensures
        join_with(pieces.push(last), separator) == join_with(pieces, separator) + separator + last,
    decreases pieces.len(),
{
    let longer = pieces.push(last);
    if pieces.len() == 1 {
        assert(longer.skip(1) =~= seq![last]);
        assert(join_with(longer.skip(1), separator) == last);
    } else {
        lemma_join_push(pieces.skip(1), separator, last);
        assert(longer.skip(1) =~= pieces.skip(1).push(last));
        assert(join_with(longer, separator) =~= join_with(pieces, separator) + separator + last);
    }
}

/// Joins the strings, with `separator` between each two of them.
pub fn join_strings(items: &Vec<String>, separator: &str) -> (r: String)
    ensures
        r@ == join_with(strings_view(items@), separator@),
{
    let ghost all = strings_view(items@);
    let mut r = String::new();
    let n = items.len();
    if n == 0 {
        return r;
    }
    r.append(items[0].as_str());
    let mut i: usize = 1;
    proof {
        assert(all.take(1)[0] == items@[0]@);
        assert(r@ =~= all.take(1)[0]);
    }
    while i < n
        invariant
            1 <= i <= n,
            n == items@.len(),
            all == strings_view(items@),
            r@ == join_with(all.take(i as int), separator@),
        decreases n - i,
    {
        proof {
            lemma_join_push(all.take(i as int), separator@, items@[i as int]@);
            assert(all.take(i as int).push(items@[i as int]@) =~= all.take(i + 1));
        }
        r.append(separator);
        r.append(items[i].as_str());
        i = i + 1;
    }
    proof {
        assert(all.take(n as int) =~= all);
    }
    r
}

impl RegistryValue {
    /// The cell that this value is exported as; `None` for the two kinds of
    /// value that cannot be exported.
    pub fn to_cell(&self) -> (r: Option<Cell>)
        ensures
            match r {
                Some(cell) => spec_cell(self@) == Some(cell@),
                None => spec_cell(self@) is None,
            },
    {
        match self {
            RegistryValue::RegNone => Some(Cell::Empty),
            RegistryValue::RegUnknown => Some(Cell::Empty),
            RegistryValue::RegSZ(s) => Some(Cell::Text(s.clone())),
            RegistryValue::RegExpandSZ(s) => Some(Cell::Text(s.clone())),
            RegistryValue::RegBinary(b) => Some(Cell::Text(hex_encode(b.as_slice()))),
            RegistryValue::RegDWord(n) => Some(Cell::U32(*n)),
            RegistryValue::RegDWordBigEndian(n) => Some(Cell::U32(*n)),
            RegistryValue::RegLink(s) => Some(Cell::Text(s.clone())),
            RegistryValue::RegMultiSZ(items) => {
                proof {
                    reveal_strlit(",");
                    assert(","@ =~= seq![',']);
                }
                Some(Cell::Text(join_strings(items, ",")))
            },
            RegistryValue::RegResourceList(s) => Some(Cell::Text(s.clone())),
            RegistryValue::RegFullResourceDescriptor(s) => Some(Cell::Text(s.clone())),
            RegistryValue::RegResourceRequirementsList(_) => None,
            RegistryValue::RegQWord(n) => Some(Cell::U64(*n)),
            RegistryValue::RegFileTime => None,
        }
    }

    /// The text that this value is shown as; `None` for a file time, which
    /// cannot be shown.
    pub fn display_text(&self) -> (r: Option<String>)
        ensures
            match r {
                Some(text) => spec_display(self@) == Some(text@),
                None => spec_display(self@) is None,
            },
    {
        match self {
            RegistryValue::RegNone => Some(String::from_str("None")),
            RegistryValue::RegUnknown => Some(String::from_str("Unknown")),
            RegistryValue::RegSZ(s) => Some(quote(s.as_str())),
            RegistryValue::RegExpandSZ(s) => Some(quote(s.as_str())),
            RegistryValue::RegBinary(b) => {
                if b.len() > 16 {
                    Some(format_debug_bytes(vstd::slice::slice_subrange(b.as_slice(), 0, 16)))
                } else {
                    Some(format_debug_bytes(b.as_slice()))
                }
            },
            RegistryValue::RegDWord(n) => Some(format_hex(*n as u64, 8)),
            RegistryValue::RegDWordBigEndian(n) => Some(format_hex(*n as u64, 8)),
            RegistryValue::RegLink(s) => Some(quote(s.as_str())),
            RegistryValue::RegMultiSZ(items) => Some(format_debug_strings(items)),
            RegistryValue::RegResourceList(s) => Some(quote(s.as_str())),
            RegistryValue::RegFullResourceDescriptor(s) => Some(quote(s.as_str())),
            RegistryValue::RegResourceRequirementsList(s) => Some(quote(s.as_str())),
            RegistryValue::RegQWord(n) => Some(format_hex(*n, 16)),
            RegistryValue::RegFileTime => None,
        }
    }
}

} // verus!
