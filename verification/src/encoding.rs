//! Base64, hexadecimal text, fields of JSON objects and random bytes.

use vstd::prelude::*;
use base64::Engine;
use crate::text::join3;

verus! {

/// The letter of a value below 64 in the standard alphabet.
pub open spec fn base64_letter(n: int) -> char {
    if n < 26 {
        ('A' as u32 + n) as char
    } else if n < 52 {
        ('a' as u32 + (n - 26)) as char
    } else if n < 62 {
        ('0' as u32 + (n - 52)) as char
    } else if n == 62 {
        '+'
    } else {
        '/'
    }
}

/// The four letters of a group of one to three bytes; `=` stands where a byte is missing.
pub open spec fn base64_group(g: Seq<u8>) -> Seq<char> {
    let a = g[0] as int;
    let b = if g.len() > 1 {
        g[1] as int
    } else {
        0
    };
    let c = if g.len() > 2 {
        g[2] as int
    } else {
        0
    };
    seq![
        base64_letter(a / 4),
        base64_letter((a % 4) * 16 + b / 16),
        if g.len() > 1 {
            base64_letter((b % 16) * 4 + c / 64)
        } else {
            '='
        },
        if g.len() > 2 {
            base64_letter(c % 64)
        } else {
            '='
        },
    ]
}

/// Standard base64 with padding and without line breaks: bytes are taken three at a time.
pub open spec fn base64_of(data: Seq<u8>) -> Seq<char>
    decreases data.len(),
{
    if data.len() == 0 {
        Seq::empty()
    } else if data.len() <= 3 {
        base64_group(data)
    } else {
        base64_group(data.subrange(0, 3)) + base64_of(data.subrange(3, data.len() as int))
    }
}

fn letter(n: u8) -> (c: char)
    requires
        n < 64,
    ensures
        c == base64_letter(n as int),
{
    if n < 26 {
        (65 + n) as char
    } else if n < 52 {
        (97 + (n - 26)) as char
    } else if n < 62 {
        (48 + (n - 52)) as char
    } else if n == 62 {
        '+'
    } else {
        '/'
    }
}

/// Writes bytes in standard base64.
pub fn base64(data: &[u8]) -> (r: String)
    ensures
        r@ == base64_of(data@),
{
    let mut out = String::new();
    let mut i: usize = 0;
    let n: usize = data.len();
    assert(data@.subrange(0, n as int) =~= data@);
    while i < n
        invariant
            i <= n == data@.len(),
            out@ + base64_of(data@.subrange(i as int, n as int)) == base64_of(data@),
        decreases n - i,
    {
        let ghost rest = data@.subrange(i as int, n as int);
        let ghost before = out@;
        let has_b = n - i > 1;
        let has_c = n - i > 2;
        let a: u8 = data[i];
        let b: u8 = if has_b {
            data[i + 1]
        } else {
            0
        };
        let c: u8 = if has_c {
            data[i + 2]
        } else {
            0
        };
        out.push(letter(a / 4));
        out.push(letter((a % 4) * 16 + b / 16));
        out.push(
            if has_b {
                letter((b % 16) * 4 + c / 64)
            } else {
                '='
            },
        );
        out.push(
            if has_c {
                letter(c % 64)
            } else {
                '='
            },
        );
        proof {
            let g = if rest.len() <= 3 {
                rest
            } else {
                rest.subrange(0, 3)
            };
            assert(out@ =~= before + base64_group(g));
            if rest.len() <= 3 {
                assert(data@.subrange(n as int, n as int) =~= Seq::empty());
                assert(out@ + Seq::<char>::empty() =~= out@);
            } else {
                assert(rest.subrange(3, rest.len() as int) =~= data@.subrange(i + 3, n as int));
                assert(before + (base64_group(g) + base64_of(data@.subrange(i + 3, n as int)))
                    =~= out@ + base64_of(data@.subrange(i + 3, n as int)));
            }
        }
        i = if has_c {
            i + 3
        } else {
            n
        };
    }
    proof {
        assert(data@.subrange(i as int, n as int) =~= Seq::empty());
        assert(out@ + Seq::<char>::empty() =~= out@);
    }
    out
}

/// A group of base64 always has four letters, so the text is four thirds of the data, rounded up
/// to a whole group.
pub proof fn law_base64_length(data: Seq<u8>)
    ensures
        base64_of(data).len() == (data.len() + 2) / 3 * 4,
    decreases data.len(),
{
    if data.len() > 3 {
        law_base64_length(data.subrange(3, data.len() as int));
    }
}

/// Whole groups in front leave the groups behind them alone: where the length of the first data is
/// a multiple of three, the text of both together is the two texts together.
pub proof fn law_base64_of_joined_data(a: Seq<u8>, b: Seq<u8>)
    requires
        a.len() % 3 == 0,
    ensures
        base64_of(a + b) == base64_of(a) + base64_of(b),
    decreases a.len(),
{
    if a.len() == 0 {
        assert(a + b =~= b);
        assert(base64_of(a) + base64_of(b) =~= base64_of(b));
    } else {
        let first = a.subrange(0, 3);
        let rest = a.subrange(3, a.len() as int);
        law_base64_of_joined_data(rest, b);
        assert((a + b).subrange(0, 3) =~= first);
        assert((a + b).subrange(3, (a + b).len() as int) =~= rest + b);
        if a.len() == 3 {
            assert(a =~= first);
            assert(rest =~= Seq::empty());
            assert(base64_of(a) == base64_group(a));
            assert(rest + b =~= b);
            if b.len() == 0 {
                assert(a + b =~= a);
                assert(base64_of(a) + base64_of(b) =~= base64_of(a));
            }
        } else {
            assert(base64_group(first) + (base64_of(rest) + base64_of(b)) =~= (base64_group(first)
                + base64_of(rest)) + base64_of(b));
        }
    }
}

/// The value of a letter of the standard alphabet.
pub open spec fn base64_value(c: char) -> int {
    if 'A' <= c && c <= 'Z' {
        c as int - 'A' as int
    } else if 'a' <= c && c <= 'z' {
        c as int - 'a' as int + 26
    } else if '0' <= c && c <= '9' {
        c as int - '0' as int + 52
    } else if c == '+' {
        62
    } else {
        63
    }
}

/// The bytes of a group of four letters: two, one or none are missing where it is padded.
pub open spec fn group_bytes(t: Seq<char>) -> Seq<u8> {
    let a = base64_value(t[0]) * 4 + base64_value(t[1]) / 16;
    let b = (base64_value(t[1]) % 16) * 16 + base64_value(t[2]) / 4;
    let c = (base64_value(t[2]) % 4) * 64 + base64_value(t[3]);
    if t[2] == '=' {
        seq![a as u8]
    } else if t[3] == '=' {
        seq![a as u8, b as u8]
    } else {
        seq![a as u8, b as u8, c as u8]
    }
}

/// The bytes that a base64 text stands for, group by group.
pub open spec fn base64_bytes(text: Seq<char>) -> Seq<u8>
    decreases text.len(),
{
    if text.len() < 4 {
        Seq::empty()
    } else {
        group_bytes(text.subrange(0, 4)) + base64_bytes(text.subrange(4, text.len() as int))
    }
}

/// How many `=` a text ends with.
pub open spec fn padding(len: nat) -> int {
    (3 - len as int % 3) % 3
}

proof fn lemma_letter(n: int)
    requires
        0 <= n < 64,
    ensures
        base64_value(base64_letter(n)) == n,
        base64_letter(n) != '=',
{
}

proof fn lemma_group(g: Seq<u8>)
    requires
        1 <= g.len() <= 3,
    ensures
        group_bytes(base64_group(g)) == g,
        forall|i: int|
            0 <= i < 4 ==> (#[trigger] base64_group(g)[i] == '=' <==> i >= 1 + g.len()),
{
    let a = g[0] as int;
    let b = if g.len() > 1 {
        g[1] as int
    } else {
        0
    };
    let c = if g.len() > 2 {
        g[2] as int
    } else {
        0
    };
    lemma_letter(a / 4);
    lemma_letter((a % 4) * 16 + b / 16);
    lemma_letter((b % 16) * 4 + c / 64);
    lemma_letter(c % 64);
    assert(group_bytes(base64_group(g)) =~= g);
}

#[verifier::spinoff_prover]
proof fn lemma_read_back(data: Seq<u8>)
    ensures
        base64_bytes(base64_of(data)) == data,
    decreases data.len(),
{
    let text = base64_of(data);
    if data.len() == 0 {
    } else if data.len() <= 3 {
        lemma_group(data);
        assert(text.subrange(0, 4) =~= text);
        assert(base64_bytes(text.subrange(4, 4)) =~= Seq::empty());
        assert(base64_bytes(text) =~= data);
    } else {
        let first = data.subrange(0, 3);
        let rest = data.subrange(3, data.len() as int);
        let group = base64_group(first);
        lemma_group(first);
        lemma_read_back(rest);
        assert(text == group + base64_of(rest));
        assert(text.subrange(0, 4) =~= group);
        assert(text.subrange(4, text.len() as int) =~= base64_of(rest));
        assert(first + rest =~= data);
    }
}

#[verifier::spinoff_prover]
proof fn lemma_padding(data: Seq<u8>)
    ensures
        forall|i: int|
            0 <= i < base64_of(data).len() ==> (#[trigger] base64_of(data)[i] == '=' <==> i
                >= base64_of(data).len() - padding(data.len())),
    decreases data.len(),
{
    let text = base64_of(data);
    if data.len() == 0 {
    } else if data.len() <= 3 {
        lemma_group(data);
        assert(text == base64_group(data));
    } else {
        let first = data.subrange(0, 3);
        let rest = data.subrange(3, data.len() as int);
        let group = base64_group(first);
        lemma_group(first);
        lemma_padding(rest);
        law_base64_length(rest);
        assert(text == group + base64_of(rest));
        assert forall|i: int| 0 <= i < text.len() implies (#[trigger] text[i] == '=' <==> i
            >= text.len() - padding(data.len())) by {
            if i >= 4 {
                assert(text[i] == base64_of(rest)[i - 4]);
            } else {
                assert(text[i] == group[i]);
            }
        }
    }
}

/// The text gives back the data, and `=` stands at its end alone: as often as bytes are missing
/// from the last group.
pub proof fn law_base64_gives_back_the_data(data: Seq<u8>)
    ensures
        base64_bytes(base64_of(data)) == data,
        forall|i: int|
            0 <= i < base64_of(data).len() ==> (#[trigger] base64_of(data)[i] == '=' <==> i
                >= base64_of(data).len() - padding(data.len())),
{
    lemma_read_back(data);
    lemma_padding(data);
}

/// A PNG image as a `data:` URI.
pub fn png_data_uri(png_bytes: &[u8]) -> (r: String)
    ensures
        r@ == "data:image/png;base64,"@ + base64_of(png_bytes@) + ""@,
{
    join3("data:image/png;base64,", base64(png_bytes).as_str(), "")
}

/// `base64::Engine::encode` of the engine `STANDARD` (base64): the standard alphabet, with
/// padding. It panics where the text would be larger than an allocation can be.
#[verifier::external_body]
pub(crate) fn encode_standard(data: &[u8]) -> (r: String)
    requires
        (data@.len() + 2) / 3 * 4 <= isize::MAX,
    ensures
        r@ == base64_of(data@),
{
    base64::engine::general_purpose::STANDARD.encode(data)
}

/// What a JSON object holds under a key.
#[derive(Debug, PartialEq, Eq)]
pub enum JsonField {
    /// There is no such key, or no object.
    Absent,
    Null,
    Truth(bool),
    Number,
    Text(String),
    List,
    Object,
}

/// The content of a [`JsonField`].
pub enum JsonFieldView {
    Absent,
    Null,
    Truth(bool),
    Number,
    Text(Seq<char>),
    List,
    Object,
}

impl View for JsonField {
    type V = JsonFieldView;

    open spec fn view(&self) -> JsonFieldView {
        match self {
            JsonField::Absent => JsonFieldView::Absent,
            JsonField::Null => JsonFieldView::Null,
            JsonField::Truth(b) => JsonFieldView::Truth(*b),
            JsonField::Number => JsonFieldView::Number,
            JsonField::Text(s) => JsonFieldView::Text(s@),
            JsonField::List => JsonFieldView::List,
            JsonField::Object => JsonFieldView::Object,
        }
    }
}

/// What a field says, or why the text is no JSON.
pub open spec fn field_said(r: Result<JsonField, String>) -> Result<JsonFieldView, Seq<char>> {
    match r {
        Ok(field) => Ok(field@),
        Err(why) => Err(why@),
    }
}

/// What the JSON text in some bytes holds under a key, or why it is no JSON text.
pub uninterp spec fn json_field_of(bytes: Seq<u8>, key: Seq<char>) -> Result<
    JsonFieldView,
    Seq<char>,
>;

/// `serde_json::from_slice` into a `serde_json::Value`, and what `get` finds there under the key.
/// The result is named after the bytes and the key; the text of an error is the one that the error
/// shows. Which texts are JSON, and what they hold, is not stated.
#[verifier::external_body]
pub(crate) fn json_field(bytes: &[u8], key: &str) -> (r: Result<JsonField, String>)
    ensures
        field_said(r) == json_field_of(bytes@, key@),
{
    let whole: serde_json::Value = serde_json::from_slice(bytes).map_err(|e| e.to_string())?;
    Ok(match whole.get(key) {
        None => JsonField::Absent,
        Some(serde_json::Value::Null) => JsonField::Null,
        Some(serde_json::Value::Bool(b)) => JsonField::Truth(*b),
        Some(serde_json::Value::Number(_)) => JsonField::Number,
        Some(serde_json::Value::String(s)) => JsonField::Text(s.clone()),
        Some(serde_json::Value::Array(_)) => JsonField::List,
        Some(serde_json::Value::Object(_)) => JsonField::Object,
    })
}

/// The hexadecimal digit of a value below sixteen, in lower case.
pub open spec fn hex_digit(n: int) -> char {
    if n < 10 {
        ('0' as u32 + n) as char
    } else {
        ('a' as u32 + (n - 10)) as char
    }
}

/// Bytes as two hexadecimal digits each.
pub open spec fn hex_of(data: Seq<u8>) -> Seq<char>
    decreases data.len(),
{
    if data.len() == 0 {
        Seq::empty()
    } else {
        hex_of(data.drop_last()).push(hex_digit(data.last() as int / 16)).push(
            hex_digit(data.last() as int % 16),
        )
    }
}

fn hex_char(n: u8) -> (c: char)
    requires
        n < 16,
    ensures
        c == hex_digit(n as int),
{
    if n < 10 {
        (48 + n) as char
    } else {
        (97 + (n - 10)) as char
    }
}

/// Writes bytes as two hexadecimal digits each.
pub fn hex(data: &[u8]) -> (r: String)
    ensures
        r@ == hex_of(data@),
{
    let mut out = String::new();
    let mut i: usize = 0;
    assert(data@.subrange(0, 0) =~= Seq::empty());
    while i < data.len()
        invariant
            i <= data@.len(),
            out@ == hex_of(data@.subrange(0, i as int)),
        decreases data@.len() - i,
    {
        out.push(hex_char(data[i] / 16));
        out.push(hex_char(data[i] % 16));
        assert(data@.subrange(0, i + 1).drop_last() =~= data@.subrange(0, i as int));
        i += 1;
    }
    assert(data@.subrange(0, i as int) =~= data@);
    out
}

/// A hexadecimal digit in lower case.
pub open spec fn is_hex(c: char) -> bool {
    ('0' <= c && c <= '9') || ('a' <= c && c <= 'f')
}

/// Hexadecimal text has two digits for each byte.
pub proof fn law_hex_shape(data: Seq<u8>)
    ensures
        hex_of(data).len() == 2 * data.len(),
        forall|i: int| 0 <= i < hex_of(data).len() ==> is_hex(#[trigger] hex_of(data)[i]),
    decreases data.len(),
{
    if data.len() > 0 {
        law_hex_shape(data.drop_last());
    }
}

/// `getrandom::getrandom` (getrandom) on a buffer of `n` zeros: it fills the buffer with random
/// bytes, or fails and leaves in it whatever it has written. Which bytes, whether it fails and how
/// it says so is left unsaid; the buffer keeps its length either way.
#[verifier::external_body]
pub(crate) fn random_bytes(n: usize) -> (r: (Vec<u8>, Result<(), String>))
    requires
        n <= isize::MAX,
    ensures
        r.0@.len() == n,
{
    let mut buf = vec![0u8; n];
    let outcome = getrandom::getrandom(&mut buf).map_err(|e| e.to_string());
    (buf, outcome)
}

/// Random bytes as hexadecimal text.
pub fn random_hex(bytes: usize) -> (r: String)
    requires
        bytes <= isize::MAX,
    ensures
        r@.len() == 2 * bytes,
        forall|i: int| 0 <= i < r@.len() ==> is_hex(#[trigger] r@[i]),
{
    let (buf, _) = random_bytes(bytes);
    proof {
        law_hex_shape(buf@);
    }
    hex(buf.as_slice())
}

} // verus!
