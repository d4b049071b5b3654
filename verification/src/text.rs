use vstd::prelude::*;

verus! {

/// One unit of rendered text: a character, or a 32-bit float (given by its
/// bits) whose decimal rendering is left to the reader of the text.
#[derive(Copy, Clone, PartialEq, Debug)]
pub enum Glyph {
    Char(char),
    Float(u32),
}

/// A run of rendered text: a string, or one float given by its bits.
#[derive(Clone, PartialEq, Debug)]
pub enum Piece {
    Text(String),
    Float(u32),
}

/// The glyph of a character.
pub open spec fn char_glyph(c: char) -> Glyph {
    Glyph::Char(c)
}

/// The glyphs of a character sequence.
pub open spec fn glyphs(s: Seq<char>) -> Seq<Glyph> {
    Seq::new(s.len(), |i: int| char_glyph(s[i]))
}

/// The glyphs of one piece.
pub open spec fn piece_glyphs(p: Piece) -> Seq<Glyph> {
    match p {
        Piece::Text(s) => glyphs(s@),
        Piece::Float(bits) => seq![Glyph::Float(bits)],
    }
}

/// The glyphs of a sequence of pieces, in order.
pub open spec fn pieces_glyphs(ps: Seq<Piece>) -> Seq<Glyph>
    decreases ps.len(),
{
    if ps.len() == 0 {
        Seq::empty()
    } else {
        pieces_glyphs(ps.drop_last()) + piece_glyphs(ps.last())
    }
}

/// Text under construction, kept as a sequence of pieces.
pub struct TextOut {
    pieces: Vec<Piece>,
}

impl View for TextOut {
    type V = Seq<Glyph>;

    closed spec fn view(&self) -> Seq<Glyph> {
        pieces_glyphs(self.pieces@)
    }
}

impl TextOut {
    /// Empty text.
    pub fn new() -> (t: TextOut)
        ensures
            t@ == Seq::<Glyph>::empty(),
    {
        TextOut { pieces: Vec::new() }
    }

    fn push_piece(&mut self, p: Piece)
        ensures
            final(self)@ == old(self)@ + piece_glyphs(p),
    {
        self.pieces.push(p);
        assert(self.pieces@.drop_last() =~= old(self).pieces@);
    }

    /// Appends a string.
    pub fn push_str(&mut self, s: &str)
        ensures
            final(self)@ == old(self)@ + glyphs(s@),
    {
        self.push_piece(Piece::Text(String::from_str(s)));
    }

    /// Appends an owned string.
    pub fn push_string(&mut self, s: String)
        ensures
            final(self)@ == old(self)@ + glyphs(s@),
    {
        self.push_piece(Piece::Text(s));
    }

    /// Appends a float given by its bits.
    pub fn push_float(&mut self, bits: u32)
        ensures
            final(self)@ == old(self)@.push(Glyph::Float(bits)),
    {
        self.push_piece(Piece::Float(bits));
        assert(old(self)@ + seq![Glyph::Float(bits)] =~= old(self)@.push(Glyph::Float(bits)));
    }

    /// The pieces of the text, in order.
    pub fn pieces(&self) -> (r: &Vec<Piece>)
        ensures
            pieces_glyphs(r@) == self@,
    {
        &self.pieces
    }
}

/// The character of a decimal digit.
pub open spec fn digit_char(d: nat) -> char
    recommends
        d < 10,
{
    seq!['0', '1', '2', '3', '4', '5', '6', '7', '8', '9'][d as int]
}

/// The decimal representation of a natural number, most significant digit
/// first, without leading zeros.
pub open spec fn decimal(n: nat) -> Seq<char>
    decreases n,
{
    if n < 10 {
        seq![digit_char(n)]
    } else {
        decimal(n / 10).push(digit_char(n % 10))
    }
}

/// The decimal representation of an integer, with a leading `-` when it is
/// negative.
pub open spec fn signed_decimal(x: int) -> Seq<char> {
    if x < 0 {
        seq!['-'] + decimal((-x) as nat)
    } else {
        decimal(x as nat)
    }
}

/// The value of a decimal digit character, or `None` for any other
/// character.
pub open spec fn digit_value(c: char) -> Option<nat> {
    if c == '0' {
        Some(0)
    } else if c == '1' {
        Some(1)
    } else if c == '2' {
        Some(2)
    } else if c == '3' {
        Some(3)
    } else if c == '4' {
        Some(4)
    } else if c == '5' {
        Some(5)
    } else if c == '6' {
        Some(6)
    } else if c == '7' {
        Some(7)
    } else if c == '8' {
        Some(8)
    } else if c == '9' {
        Some(9)
    } else {
        None
    }
}

/// Whether every character of `s` is a decimal digit.
pub open spec fn all_digits(s: Seq<char>) -> bool {
    forall|i: int| 0 <= i < s.len() ==> (#[trigger] digit_value(s[i])) is Some
}

/// The number that a string of decimal digits denotes, most significant
/// digit first.
pub open spec fn digits_value(s: Seq<char>) -> nat
    decreases s.len(),
{
    if s.len() == 0 {
        0
    } else {
        digits_value(s.drop_last()) * 10 + match digit_value(s.last()) {
            Some(d) => d,
            None => 0,
        }
    }
}

/// The decimal text of `n` is a non-empty string of digits that denotes
/// `n`, with no leading zero unless `n` is zero; distinct numbers have
/// distinct texts.
pub proof fn lemma_decimal(n: nat)
    ensures
        decimal(n).len() >= 1,
        all_digits(decimal(n)),
        digits_value(decimal(n)) == n,
        decimal(n)[0] == '0' ==> n == 0,
    decreases n,
{
    if n >= 10 {
        lemma_decimal(n / 10);
        let s = decimal(n);
        assert(s.drop_last() =~= decimal(n / 10));
        assert(digit_value(digit_char((n % 10) as nat)) == Some((n % 10) as nat));
        assert(s.last() == digit_char((n % 10) as nat));
        assert((n / 10) * 10 + n % 10 == n) by (nonlinear_arith);
        assert(digits_value(s) == digits_value(decimal(n / 10)) * 10 + (n % 10) as nat);
        assert forall|i: int| 0 <= i < s.len() implies (#[trigger] digit_value(s[i])) is Some by {
            if i < s.len() - 1 {
                assert(s[i] == decimal(n / 10)[i]);
            }
        }
    } else {
        assert(digit_value(digit_char(n)) == Some(n));
        assert(decimal(n).drop_last() =~= Seq::<char>::empty());
        assert(decimal(n).last() == digit_char(n));
        assert(digits_value(Seq::<char>::empty()) == 0);
        assert(digits_value(decimal(n)) == digits_value(decimal(n).drop_last()) * 10 + n);
    }
}

/// Decimal texts of distinct numbers differ.
pub proof fn lemma_decimal_injective(m: nat, n: nat)
    ensures
        decimal(m) == decimal(n) ==> m == n,
{
    lemma_decimal(m);
    lemma_decimal(n);
}

/// The signed decimal text of `x` denotes `x`: a `-` followed by the digits
/// of `-x` when `x` is negative, the digits of `x` otherwise.
pub proof fn lemma_signed_decimal(x: int)
    ensures
        x < 0 ==> signed_decimal(x).len() >= 2 && signed_decimal(x)[0] == '-' && all_digits(
            signed_decimal(x).drop_first(),
        ) && digits_value(signed_decimal(x).drop_first()) == -x,
        x >= 0 ==> all_digits(signed_decimal(x)) && digits_value(signed_decimal(x)) == x,
{
    if x < 0 {
        lemma_decimal((-x) as nat);
        assert(signed_decimal(x).drop_first() =~= decimal((-x) as nat));
    } else {
        lemma_decimal(x as nat);
    }
}

/// `n` spaces.
pub open spec fn spaces(n: nat) -> Seq<char> {
    Seq::new(n, |i: int| ' ')
}

/// `s` right-aligned in a field of `width` characters.
pub open spec fn pad_left(s: Seq<char>, width: nat) -> Seq<char> {
    if s.len() < width {
        spaces((width - s.len()) as nat) + s
    } else {
        s
    }
}

/// `s` left-aligned in a field of `width` characters.
pub open spec fn pad_right(s: Seq<char>, width: nat) -> Seq<char> {
    if s.len() < width {
        s + spaces((width - s.len()) as nat)
    } else {
        s
    }
}

/// Padding to a width leaves text at least that wide alone, and otherwise
/// makes it exactly that wide: right alignment puts spaces before the text,
/// left alignment after it.
pub proof fn lemma_padding(s: Seq<char>, width: nat)
    ensures
        pad_left(s, width).len() == if s.len() < width { width } else { s.len() },
        pad_right(s, width).len() == if s.len() < width { width } else { s.len() },
        pad_left(s, width).subrange(pad_left(s, width).len() - s.len(), pad_left(s, width).len() as int)
            == s,
        pad_right(s, width).subrange(0, s.len() as int) == s,
        forall|i: int|
            0 <= i < pad_left(s, width).len() - s.len() ==> #[trigger] pad_left(s, width)[i] == ' ',
        forall|i: int|
            s.len() <= i < pad_right(s, width).len() ==> #[trigger] pad_right(s, width)[i] == ' ',
{
    let l = pad_left(s, width);
    let r = pad_right(s, width);
    assert(l.subrange(l.len() - s.len(), l.len() as int) =~= s);
    assert(r.subrange(0, s.len() as int) =~= s);
}

fn push_digit(s: &mut String, d: u32)
    requires
        d < 10,
    ensures
        final(s)@ == old(s)@.push(digit_char(d as nat)),
{
    let digits = "0123456789";
    proof {
        reveal_strlit("0123456789");
    }
    assert(digits@ =~= seq!['0', '1', '2', '3', '4', '5', '6', '7', '8', '9']);
    assert(digits.is_ascii());
    let one = digits.substring_ascii(d as usize, d as usize + 1);
    s.append(one);
    assert(one@ =~= seq![digit_char(d as nat)]);
}

/// Appends the decimal representation of `n`.
pub fn push_decimal(s: &mut String, n: u32)
    ensures
        final(s)@ == old(s)@ + decimal(n as nat),
    decreases n,
{
    if n >= 10 {
        push_decimal(s, n / 10);
        push_digit(s, n % 10);
        assert(old(s)@ + decimal(n as nat) =~= old(s)@ + decimal((n / 10) as nat) + seq![
            digit_char((n % 10) as nat),
        ]);
    } else {
        push_digit(s, n);
        assert(old(s)@ + decimal(n as nat) =~= old(s)@.push(digit_char(n as nat)));
    }
}

/// The decimal representation of `n`.
pub fn decimal_string(n: u32) -> (r: String)
    ensures
        r@ == decimal(n as nat),
{
    let mut s = String::new();
    push_decimal(&mut s, n);
    assert(s@ =~= decimal(n as nat));
    s
}

/// The decimal representation of `x`, with a leading `-` when negative.
pub fn signed_decimal_string(x: i32) -> (r: String)
    ensures
        r@ == signed_decimal(x as int),
{
    let mut s = String::new();
    if x < 0 {
        let minus = "-";
        proof {
            reveal_strlit("-");
        }
        s.append(minus);
        let m: u32 = (-(x as i64)) as u32;
        push_decimal(&mut s, m);
        assert(s@ =~= signed_decimal(x as int));
    } else {
        push_decimal(&mut s, x as u32);
        assert(s@ =~= signed_decimal(x as int));
    }
    s
}

/// Appends `n` spaces.
pub fn push_spaces(s: &mut String, n: usize)
    ensures
        final(s)@ == old(s)@ + spaces(n as nat),
{
    let space = " ";
    proof {
        reveal_strlit(" ");
    }
    let mut i: usize = 0;
    while i < n
        invariant
            i <= n,
            s@ == old(s)@ + spaces(i as nat),
            space@ == seq![' '],
        decreases n - i,
    {
        s.append(space);
        i = i + 1;
        assert(s@ =~= old(s)@ + spaces(i as nat));
    }
}

/// `s` right-aligned in a field of `width` characters.
pub fn padded_left(s: &str, width: usize) -> (r: String)
    ensures
        r@ == pad_left(s@, width as nat),
{
    let len = s.unicode_len();
    let mut r = String::new();
    if len < width {
        push_spaces(&mut r, width - len);
    }
    r.append(s);
    assert(r@ =~= pad_left(s@, width as nat));
    r
}

/// `s` left-aligned in a field of `width` characters.
pub fn padded_right(s: &str, width: usize) -> (r: String)
    ensures
        r@ == pad_right(s@, width as nat),
{
    let len = s.unicode_len();
    let mut r = String::from_str(s);
    if len < width {
        push_spaces(&mut r, width - len);
    }
    assert(r@ =~= pad_right(s@, width as nat));
    r
}

/// Reads `bytes` as UTF-8 (`std::str::from_utf8`): the text they encode
/// when they are valid UTF-8, nothing otherwise.
#[verifier::external_body]
fn utf8_str(bytes: &[u8]) -> (r: Option<&str>)
    ensures
        r is Some <==> vstd::utf8::valid_utf8(bytes@),
        r matches Some(s) ==> s@ == vstd::utf8::decode_utf8(bytes@),
{
    match std::str::from_utf8(bytes) {
        Ok(s) => Some(s),
        Err(_) => None,
    }
}

/// The text that a byte string encodes, when it is valid UTF-8.
pub fn decode_utf8_bytes(bytes: &Vec<u8>) -> (r: Option<String>)
    ensures
        r is Some <==> vstd::utf8::valid_utf8(bytes@),
        r matches Some(s) ==> s@ == vstd::utf8::decode_utf8(bytes@),
{
    match utf8_str(bytes.as_slice()) {
        Some(s) => Some(String::from_str(s)),
        None => None,
    }
}

} // verus!
