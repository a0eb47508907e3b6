//! One line of the hexdump: offset, hex bytes, padding and printable preview.
use vstd::prelude::*;

verus! {

/// Number of bytes shown on one line.
pub const BYTES_PER_LINE: usize = 16;

/// The lowercase hexadecimal digit for a value below 16.
pub open spec fn hex_digit(d: u8) -> char {
    if d < 10 {
        ((d + 48) as u8) as char
    } else {
        ((d + 87) as u8) as char
    }
}

/// The value of a lowercase hexadecimal digit.
pub open spec fn digit_value(c: char) -> int {
    if '0' <= c && c <= '9' {
        c as int - 48
    } else {
        c as int - 87
    }
}

/// The last `n` hexadecimal digits of `v`, most significant first.
pub open spec fn hex_digits(v: nat, n: nat) -> Seq<char>
    decreases n,
{
    if n == 0 {
        seq![]
    } else {
        hex_digits(v / 16, (n - 1) as nat).push(hex_digit((v % 16) as u8))
    }
}

/// A byte as two hexadecimal digits.
pub open spec fn hex_pair(b: u8) -> Seq<char> {
    seq![hex_digit((b / 16) as u8), hex_digit((b % 16) as u8)]
}

/// The hex pairs of all bytes, joined by single spaces.
pub open spec fn hex_group(bytes: Seq<u8>) -> Seq<char>
    decreases bytes.len(),
{
    if bytes.len() == 0 {
        seq![]
    } else if bytes.len() == 1 {
        hex_pair(bytes[0])
    } else {
        hex_group(bytes.drop_last()) + seq![' '] + hex_pair(bytes.last())
    }
}

/// `n` space characters.
pub open spec fn spaces(n: nat) -> Seq<char> {
    Seq::new(n, |i: int| ' ')
}

/// Whether a byte is printable ASCII.
pub open spec fn printable(b: u8) -> bool {
    0x20 <= b && b <= 0x7e
}

/// The preview character of a byte.
pub open spec fn preview_char(b: u8) -> char {
    if printable(b) {
        b as char
    } else {
        '.'
    }
}

/// The preview of a chunk: one character per byte.
pub open spec fn preview(bytes: Seq<u8>) -> Seq<char> {
    bytes.map_values(|b: u8| preview_char(b))
}

/// The full text of the line for `bytes` at `offset`.
pub open spec fn line_of(bytes: Seq<u8>, offset: u32) -> Seq<char> {
    hex_digits(offset as nat, 8) + seq![' '] + hex_group(bytes) + spaces(
        ((16 - bytes.len()) * 3) as nat,
    ) + seq![' ', ' ', '|'] + preview(bytes) + seq!['|', '\n']
}

/// Whether a byte is printable ASCII, `0x20` through `0x7e`.
pub fn is_printable(c: u8) -> (r: bool)
    ensures
        r == printable(c),
{
    c >= 0x20 && c <= 0x7e
}

fn hex_char(d: u8) -> (c: char)
    requires
        d < 16,
    ensures
        c == hex_digit(d),
{
    if d < 10 {
        (d + 48) as char
    } else {
        (d + 87) as char
    }
}

fn push_hex_digits(out: &mut Vec<char>, v: u32, n: usize)
    ensures
        final(out)@ == old(out)@ + hex_digits(v as nat, n as nat),
    decreases n,
{
    if n > 0 {
        push_hex_digits(out, v / 16, n - 1);
        out.push(hex_char((v % 16) as u8));
        assert(out@ =~= old(out)@ + hex_digits(v as nat, n as nat));
    } else {
        assert(out@ =~= old(out)@ + hex_digits(v as nat, n as nat));
    }
}

fn preview_of(b: u8) -> (c: char)
    ensures
        c == preview_char(b),
{
    if is_printable(b) {
        b as char
    } else {
        '.'
    }
}

/// Relies on `String`'s `FromIterator<char>`: the string holds the characters in order.
#[verifier::external_body]
fn string_from_chars(chars: Vec<char>) -> (r: String)
    ensures
        r@ == chars@,
{
    String::from_iter(chars)
}

proof fn lemma_hex_group_step(b: Seq<u8>, i: int)
    requires
        0 <= i < b.len(),
    ensures
        hex_group(b.take(i + 1)) == hex_group(b.take(i)) + (if i == 0 {
            Seq::<char>::empty()
        } else {
            seq![' ']
        }) + hex_pair(b[i]),
{
    let t = b.take(i + 1);
    assert(t.drop_last() =~= b.take(i));
    assert(t.last() == b[i]);
    if i == 0 {
        assert(hex_group(b.take(0)) =~= Seq::<char>::empty());
        assert(hex_group(t) =~= Seq::<char>::empty() + Seq::<char>::empty() + hex_pair(b[i]));
    }
}

/// Renders one line of the dump for a chunk of at most sixteen bytes.
pub fn gen_info(bytes: &[u8], offset: u32) -> (r: String)
    requires
        bytes@.len() <= BYTES_PER_LINE,
    ensures
        r@ == line_of(bytes@, offset),
{
    let n = bytes.len();
    let mut out: Vec<char> = Vec::new();
    push_hex_digits(&mut out, offset, 8);
    out.push(' ');
    let ghost head = out@;
    let mut i: usize = 0;
    while i < n
        invariant
            i <= n,
            n == bytes@.len(),
            out@ == head + hex_group(bytes@.take(i as int)),
        decreases n - i,
    {
        proof {
            lemma_hex_group_step(bytes@, i as int);
        }
        if i > 0 {
            out.push(' ');
        }
        let b = bytes[i];
        out.push(hex_char(b / 16));
        out.push(hex_char(b % 16));
        assert(out@ =~= head + hex_group(bytes@.take(i as int + 1)));
        i += 1;
    }
    assert(bytes@.take(n as int) =~= bytes@);
    let pad: usize = (BYTES_PER_LINE - n) * 3;
    let ghost head2 = out@;
    let mut j: usize = 0;
    while j < pad
        invariant
            j <= pad,
            out@ == head2 + spaces(j as nat),
        decreases pad - j,
    {
        out.push(' ');
        assert(out@ =~= head2 + spaces((j + 1) as nat));
        j += 1;
    }
    out.push(' ');
    out.push(' ');
    out.push('|');
    let ghost head3 = out@;
    let mut k: usize = 0;
    while k < n
        invariant
            k <= n,
            n == bytes@.len(),
            out@ == head3 + preview(bytes@.take(k as int)),
        decreases n - k,
    {
        out.push(preview_of(bytes[k]));
        assert(out@ =~= head3 + preview(bytes@.take(k as int + 1)));
        k += 1;
    }
    out.push('|');
    out.push('\n');
    assert(out@ =~= line_of(bytes@, offset));
    string_from_chars(out)
}

/// Whether a character is a lowercase hexadecimal digit.
pub open spec fn is_hex_char(c: char) -> bool {
    ('0' <= c && c <= '9') || ('a' <= c && c <= 'f')
}

/// Whether `s` is pairs of lowercase hexadecimal digits joined by single
/// spaces, or empty.
pub open spec fn is_hex_group(s: Seq<char>) -> bool {
    s.len() == 0 || {
        &&& s.len() % 3 == 2
        &&& forall|i: int| 0 <= i < s.len() && i % 3 == 2 ==> #[trigger] s[i] == ' '
        &&& forall|i: int| 0 <= i < s.len() && i % 3 != 2 ==> is_hex_char(#[trigger] s[i])
    }
}

/// Reads a group of space-separated hex pairs back into bytes; `None` when
/// `s` is not such a group.
pub open spec fn parse_hex_group(s: Seq<char>) -> Option<Seq<u8>> {
    if is_hex_group(s) {
        Some(
            Seq::new(
                ((s.len() + 1) / 3) as nat,
                |i: int| (digit_value(s[3 * i]) * 16 + digit_value(s[3 * i + 1])) as u8,
            ),
        )
    } else {
        None
    }
}

proof fn lemma_hex_digit(d: u8)
    requires
        d < 16,
    ensures
        digit_value(hex_digit(d)) == d,
        is_hex_char(hex_digit(d)),
        hex_digit(d) != '|',
        hex_digit(d) != ' ',
{
}

proof fn lemma_hex_digits_no_bar(v: nat, n: nat)
    ensures
        hex_digits(v, n).len() == n,
        forall|i: int| 0 <= i < n ==> hex_digits(v, n)[i] != '|',
    decreases n,
{
    if n > 0 {
        lemma_hex_digits_no_bar(v / 16, (n - 1) as nat);
        lemma_hex_digit((v % 16) as u8);
    }
}

proof fn lemma_hex_group_index(b: Seq<u8>)
    requires
        b.len() >= 1,
    ensures
        hex_group(b).len() == 3 * b.len() - 1,
        forall|i: int|
            0 <= i < b.len() ==> {
                &&& #[trigger] hex_group(b)[3 * i] == hex_digit((b[i] / 16) as u8)
                &&& hex_group(b)[3 * i + 1] == hex_digit((b[i] % 16) as u8)
            },
        forall|i: int| 0 <= i < b.len() - 1 ==> #[trigger] hex_group(b)[3 * i + 2] == ' ',
        forall|i: int| 0 <= i < hex_group(b).len() ==> #[trigger] hex_group(b)[i] != '|',
    decreases b.len(),
{
    if b.len() > 1 {
        let p = b.drop_last();
        lemma_hex_group_index(p);
        let g = hex_group(b);
        assert(g == hex_group(p) + seq![' '] + hex_pair(b.last()));
        assert forall|i: int| 0 <= i < b.len() implies {
            &&& #[trigger] g[3 * i] == hex_digit((b[i] / 16) as u8)
            &&& g[3 * i + 1] == hex_digit((b[i] % 16) as u8)
        } by {
            if i < p.len() {
                assert(p[i] == b[i]);
                assert(g[3 * i] == hex_group(p)[3 * i]);
            }
        }
        assert forall|i: int| 0 <= i < b.len() - 1 implies #[trigger] g[3 * i + 2] == ' ' by {
            if i < p.len() - 1 {
                assert(g[3 * i + 2] == hex_group(p)[3 * i + 2]);
            }
        }
        lemma_hex_digit((b.last() / 16) as u8);
        lemma_hex_digit((b.last() % 16) as u8);
        assert forall|i: int| 0 <= i < g.len() implies #[trigger] g[i] != '|' by {
            if i < hex_group(p).len() {
                assert(g[i] == hex_group(p)[i]);
            }
        }
    } else {
        lemma_hex_digit((b[0] / 16) as u8);
        lemma_hex_digit((b[0] % 16) as u8);
    }
}

/// Every line of a chunk of one to sixteen bytes has the same layout: eight
/// offset digits, a space, the hex group, the padding, two spaces, then the
/// preview between bars and a newline. The first bar always stands at
/// character 58, whatever the chunk's length.
pub proof fn lemma_line_shape(bytes: Seq<u8>, offset: u32)
    requires
        1 <= bytes.len() <= 16,
    ensures
        ({
            let l = line_of(bytes, offset);
            let n = bytes.len() as int;
            &&& l.len() == 61 + n
            &&& l.subrange(0, 8) == hex_digits(offset as nat, 8)
            &&& l[8] == ' '
            &&& l.subrange(9, 8 + 3 * n) == hex_group(bytes)
            &&& l.subrange(8 + 3 * n, 56) == spaces(((16 - n) * 3) as nat)
            &&& l[56] == ' ' && l[57] == ' ' && l[58] == '|'
            &&& l.subrange(59, 59 + n) == preview(bytes)
            &&& l[59 + n] == '|' && l[60 + n] == '\n'
            &&& forall|i: int| 0 <= i < 58 ==> #[trigger] l[i] != '|'
        }),
{
    let l = line_of(bytes, offset);
    let n = bytes.len() as int;
    let d = hex_digits(offset as nat, 8);
    let g = hex_group(bytes);
    let sp = spaces(((16 - n) * 3) as nat);
    lemma_hex_digits_no_bar(offset as nat, 8);
    lemma_hex_group_index(bytes);
    assert(l.subrange(0, 8) =~= d);
    assert(l.subrange(9, 8 + 3 * n) =~= g);
    assert(l.subrange(8 + 3 * n, 56) =~= sp);
    assert(l.subrange(59, 59 + n) =~= preview(bytes));
    assert forall|i: int| 0 <= i < 58 implies #[trigger] l[i] != '|' by {
        if i < 8 {
            assert(l[i] == d[i]);
        } else if 9 <= i < 8 + 3 * n {
            assert(l[i] == g[i - 9]);
        } else if 8 + 3 * n <= i < 56 {
            assert(l[i] == sp[i - 8 - 3 * n]);
        }
    }
}

/// The hex group is pairs of lowercase hexadecimal digits joined by single
/// spaces, and reading it back gives the chunk's bytes, in order.
pub proof fn lemma_hex_group_round_trip(bytes: Seq<u8>)
    ensures
        is_hex_group(hex_group(bytes)),
        parse_hex_group(hex_group(bytes)) == Some(bytes),
{
    let g = hex_group(bytes);
    if bytes.len() == 0 {
        assert(parse_hex_group(g).unwrap() =~= bytes);
    } else {
        lemma_hex_group_index(bytes);
        assert forall|i: int| 0 <= i < g.len() && i % 3 == 2 implies #[trigger] g[i] == ' ' by {
            let j = i / 3;
            assert(i == 3 * j + 2);
            assert(g[3 * j + 2] == ' ');
        }
        assert forall|i: int| 0 <= i < g.len() && i % 3 != 2 implies is_hex_char(
            #[trigger] g[i],
        ) by {
            let j = i / 3;
            let b = bytes[j];
            lemma_hex_digit((b / 16) as u8);
            lemma_hex_digit((b % 16) as u8);
            if i % 3 == 0 {
                assert(i == 3 * j);
                assert(g[3 * j] == hex_digit((b / 16) as u8));
            } else {
                assert(i == 3 * j + 1);
                assert(g[3 * j] == hex_digit((b / 16) as u8));
            }
        }
        assert(is_hex_group(g));
        assert forall|i: int| 0 <= i < bytes.len() implies #[trigger] parse_hex_group(
            g,
        ).unwrap()[i] == bytes[i] by {
            let b = bytes[i];
            assert(g[3 * i] == hex_digit((b / 16) as u8));
            lemma_hex_digit((b / 16) as u8);
            lemma_hex_digit((b % 16) as u8);
        }
        assert(parse_hex_group(g).unwrap() =~= bytes);
    }
}

/// The preview shows each byte as its own character exactly when it is
/// printable ASCII, and as a dot otherwise.
pub proof fn lemma_preview_mapping(bytes: Seq<u8>, offset: u32, i: int)
    requires
        1 <= bytes.len() <= 16,
        0 <= i < bytes.len(),
    ensures
        line_of(bytes, offset)[59 + i] == bytes[i] as char <==> printable(bytes[i]),
        !printable(bytes[i]) ==> line_of(bytes, offset)[59 + i] == '.',
{
    lemma_line_shape(bytes, offset);
    let l = line_of(bytes, offset);
    assert(l[59 + i] == l.subrange(59, 59 + bytes.len() as int)[i]);
}

} // verus!
