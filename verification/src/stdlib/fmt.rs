//! Formatting of integers into text with width, alignment and base markers.
use vstd::prelude::*;
use crate::text::{decimal, owned, string_push, string_push_str};
use crate::strops::{repeat_spec, upper_char};

verus! {

/// How a value is rendered.
#[derive(Debug, Clone, Copy, PartialEq, Eq, Structural)]
pub enum FormatSpec {
    Default,
    Binary,
    Octal,
    HexLower,
    HexUpper,
    Decimal,
    Float,
    Scientific,
    General,
    String,
    Char,
}

/// Where the text sits inside a wider field.
#[derive(Debug, Clone, Copy, PartialEq, Eq, Structural)]
pub enum Alignment {
    Left,
    Right,
    Center,
}

/// A formatting error.
#[derive(Debug, Clone)]
pub struct Error {
    message: String,
}

impl Error {
    pub closed spec fn spec_message(&self) -> Seq<char> { self.message@ }

    pub fn new(msg: String) -> (r: Error)
        ensures
            r.spec_message() == msg@,
    {
        Error { message: msg }
    }
}

/// The text of an integer: decimal digits of its magnitude, a '-' when negative,
/// a '+' for the `Decimal` spec, and a base marker (`0b`, `0o`, `0x`, `0X`) in alternate form.
/// (The digits are decimal whatever the spec.)
pub open spec fn format_int_spec(n: int, spec: FormatSpec, alternate: bool) -> Seq<char> {
    if n == 0 {
        "0"@
    } else {
        let mag = if n < 0 { -n } else { n };
        let body = if n < 0 { "-"@ + decimal(mag as nat) } else if spec == FormatSpec::Decimal { "+"@ + decimal(mag as nat) } else { decimal(mag as nat) };
        match spec {
            FormatSpec::Binary => if alternate { "0b"@ + body } else { body },
            FormatSpec::Octal => if alternate { "0o"@ + body } else { body },
            FormatSpec::HexLower => if alternate { "0x"@ + body } else { body },
            FormatSpec::HexUpper => {
                let upper = body.map_values(|c: char| if 'a' <= c && c <= 'f' { upper_char(c) } else { c });
                if alternate { "0X"@ + upper } else { upper }
            },
            _ => body,
        }
    }
}

/// `s` placed in a field of `width` spaces-padded characters.
pub open spec fn pad_spec(s: Seq<char>, width: Option<i64>, alignment: Alignment) -> Seq<char> {
    match width {
        Some(w) if s.len() < w => {
            let pad = w - s.len();
            match alignment {
                Alignment::Left => s + repeat_spec(" "@, pad as nat),
                Alignment::Center => repeat_spec(" "@, (pad / 2) as nat) + s + repeat_spec(" "@, (pad - pad / 2) as nat),
                Alignment::Right => repeat_spec(" "@, pad as nat) + s,
            }
        },
        _ => s,
    }
}

/// Formats values into an output text.
pub struct Formatter {
    width: Option<i64>,
    precision: Option<i64>,
    spec: FormatSpec,
    sign: bool,
    alternate: bool,
    padding: char,
    alignment: Alignment,
    output: String,
}

fn push_spaces(s: &mut String, n: i64)
    requires
        n >= 0,
    ensures
        final(s)@ == old(s)@ + repeat_spec(" "@, n as nat),
{
    let mut k: i64 = 0;
    assert(old(s)@ + repeat_spec(" "@, 0) =~= old(s)@);
    while k < n
        invariant
            0 <= k <= n,
            s@ == old(s)@ + repeat_spec(" "@, k as nat),
        decreases n - k,
    {
        string_push_str(s, " ");
        k = k + 1;
        assert(s@ =~= old(s)@ + repeat_spec(" "@, k as nat));
    }
}

impl Formatter {
    pub closed spec fn out(&self) -> Seq<char> { self.output@ }
    pub closed spec fn spec_width(&self) -> Option<i64> { self.width }
    pub closed spec fn spec_precision(&self) -> Option<i64> { self.precision }
    pub closed spec fn spec_spec(&self) -> FormatSpec { self.spec }
    pub closed spec fn spec_sign(&self) -> bool { self.sign }
    pub closed spec fn spec_alternate(&self) -> bool { self.alternate }
    pub closed spec fn spec_fill(&self) -> char { self.padding }
    pub closed spec fn spec_alignment(&self) -> Alignment { self.alignment }

    /// The settings other than the output are those of `other`.
    pub open spec fn same_settings(&self, other: &Formatter) -> bool {
        &&& self.spec_width() == other.spec_width()
        &&& self.spec_precision() == other.spec_precision()
        &&& self.spec_spec() == other.spec_spec()
        &&& self.spec_sign() == other.spec_sign()
        &&& self.spec_alternate() == other.spec_alternate()
        &&& self.spec_fill() == other.spec_fill()
        &&& self.spec_alignment() == other.spec_alignment()
    }

    /// Default settings: no width or precision, default spec, right alignment, space fill.
    pub fn new() -> (r: Formatter)
        ensures
            r.spec_width() is None,
            r.spec_precision() is None,
            r.spec_spec() == FormatSpec::Default,
            !r.spec_sign(),
            !r.spec_alternate(),
            r.spec_fill() == ' ',
            r.spec_alignment() == Alignment::Right,
            r.out() == Seq::<char>::empty(),
    {
        Formatter {
            width: None,
            precision: None,
            spec: FormatSpec::Default,
            sign: false,
            alternate: false,
            padding: ' ',
            alignment: Alignment::Right,
            output: String::new(),
        }
    }

    pub fn width(&mut self, w: i64) -> (r: &mut Formatter)
        ensures
            r.spec_width() == Some(w),
            r.spec_precision() == old(self).spec_precision(),
            r.spec_spec() == old(self).spec_spec(),
            r.spec_fill() == old(self).spec_fill(),
            r.spec_alignment() == old(self).spec_alignment(),
            r.spec_sign() == old(self).spec_sign(),
            r.spec_alternate() == old(self).spec_alternate(),
            r.out() == old(self).out(),
            *final(self) == *final(r),
    {
        self.width = Some(w);
        self
    }

    pub fn precision(&mut self, p: i64) -> (r: &mut Formatter)
        ensures
            r.spec_precision() == Some(p),
            r.spec_width() == old(self).spec_width(),
            r.spec_spec() == old(self).spec_spec(),
            r.spec_fill() == old(self).spec_fill(),
            r.spec_alignment() == old(self).spec_alignment(),
            r.spec_sign() == old(self).spec_sign(),
            r.spec_alternate() == old(self).spec_alternate(),
            r.out() == old(self).out(),
            *final(self) == *final(r),
    {
        self.precision = Some(p);
        self
    }

    pub fn spec(&mut self, s: FormatSpec) -> (r: &mut Formatter)
        ensures
            r.spec_spec() == s,
            r.spec_width() == old(self).spec_width(),
            r.spec_precision() == old(self).spec_precision(),
            r.spec_fill() == old(self).spec_fill(),
            r.spec_alignment() == old(self).spec_alignment(),
            r.spec_sign() == old(self).spec_sign(),
            r.spec_alternate() == old(self).spec_alternate(),
            r.out() == old(self).out(),
            *final(self) == *final(r),
    {
        self.spec = s;
        self
    }

    pub fn fill(&mut self, c: char) -> (r: &mut Formatter)
        ensures
            r.spec_fill() == c,
            r.spec_width() == old(self).spec_width(),
            r.spec_precision() == old(self).spec_precision(),
            r.spec_spec() == old(self).spec_spec(),
            r.spec_alignment() == old(self).spec_alignment(),
            r.spec_sign() == old(self).spec_sign(),
            r.spec_alternate() == old(self).spec_alternate(),
            r.out() == old(self).out(),
            *final(self) == *final(r),
    {
        self.padding = c;
        self
    }

    pub fn alignment(&mut self, a: Alignment) -> (r: &mut Formatter)
        ensures
            r.spec_alignment() == a,
            r.spec_width() == old(self).spec_width(),
            r.spec_precision() == old(self).spec_precision(),
            r.spec_spec() == old(self).spec_spec(),
            r.spec_fill() == old(self).spec_fill(),
            r.spec_sign() == old(self).spec_sign(),
            r.spec_alternate() == old(self).spec_alternate(),
            r.out() == old(self).out(),
            *final(self) == *final(r),
    {
        self.alignment = a;
        self
    }

    pub fn sign(&mut self, b: bool) -> (r: &mut Formatter)
        ensures
            r.spec_sign() == b,
            r.spec_width() == old(self).spec_width(),
            r.spec_precision() == old(self).spec_precision(),
            r.spec_spec() == old(self).spec_spec(),
            r.spec_fill() == old(self).spec_fill(),
            r.spec_alignment() == old(self).spec_alignment(),
            r.spec_alternate() == old(self).spec_alternate(),
            r.out() == old(self).out(),
            *final(self) == *final(r),
    {
        self.sign = b;
        self
    }

    pub fn alternate(&mut self, b: bool) -> (r: &mut Formatter)
        ensures
            r.spec_alternate() == b,
            r.spec_width() == old(self).spec_width(),
            r.spec_precision() == old(self).spec_precision(),
            r.spec_spec() == old(self).spec_spec(),
            r.spec_fill() == old(self).spec_fill(),
            r.spec_alignment() == old(self).spec_alignment(),
            r.spec_sign() == old(self).spec_sign(),
            r.out() == old(self).out(),
            *final(self) == *final(r),
    {
        self.alternate = b;
        self
    }

    pub fn write_string(&mut self, s: &str) -> (r: Result<(), Error>)
        ensures
            r is Ok,
            final(self).out() == old(self).out() + s@,
            final(self).same_settings(old(self)),
    {
        string_push_str(&mut self.output, s);
        Ok(())
    }

    pub fn write_char(&mut self, c: char) -> (r: Result<(), Error>)
        ensures
            r is Ok,
            final(self).out() == old(self).out().push(c),
            final(self).same_settings(old(self)),
    {
        string_push(&mut self.output, c);
        Ok(())
    }

    /// Writes an integer rendered by the spec, padded to the width.
    pub fn write_int(&mut self, n: i64) -> (r: Result<(), Error>)
        requires
            n > i64::MIN,
        ensures
            r is Ok,
            final(self).out() == old(self).out() + pad_spec(format_int_spec(n as int, old(self).spec_spec(), old(self).spec_alternate()), old(self).spec_width(), old(self).spec_alignment()),
            final(self).same_settings(old(self)),
    {
        let s = format_int_to_string(n, self.spec, self.alternate);
        self.pad_and_write(s.as_str())
    }

    fn pad_and_write(&mut self, s: &str) -> (r: Result<(), Error>)
        ensures
            r is Ok,
            final(self).out() == old(self).out() + pad_spec(s@, old(self).spec_width(), old(self).spec_alignment()),
            final(self).same_settings(old(self)),
    {
        let len = s.unicode_len();
        match self.width {
            Some(w) => {
                if (len as i128) < (w as i128) {
                    let pad_len = w - (len as i64);
                    match self.alignment {
                        Alignment::Left => {
                            string_push_str(&mut self.output, s);
                            push_spaces(&mut self.output, pad_len);
                        },
                        Alignment::Center => {
                            let left = pad_len / 2;
                            let right = pad_len - left;
                            push_spaces(&mut self.output, left);
                            string_push_str(&mut self.output, s);
                            push_spaces(&mut self.output, right);
                        },
                        Alignment::Right => {
                            push_spaces(&mut self.output, pad_len);
                            string_push_str(&mut self.output, s);
                        },
                    }
                    assert(self.output@ =~= old(self).out() + pad_spec(s@, old(self).spec_width(), old(self).spec_alignment()));
                } else {
                    string_push_str(&mut self.output, s);
                }
            },
            None => {
                string_push_str(&mut self.output, s);
            },
        }
        Ok(())
    }

    /// The text written so far.
    pub fn finish(&mut self) -> (r: String)
        ensures
            r@ == old(self).out(),
            *final(self) == *old(self),
    {
        self.output.clone()
    }
}

fn format_int_to_string(n: i64, spec: FormatSpec, alternate: bool) -> (r: String)
    requires
        n > i64::MIN,
    ensures
        r@ == format_int_spec(n as int, spec, alternate),
{
    if n == 0 {
        return owned("0");
    }
    let mag: u64 = if n < 0 { (-n) as u64 } else { n as u64 };
    let mut body = String::new();
    if n < 0 {
        string_push_str(&mut body, "-");
    } else if spec == FormatSpec::Decimal {
        string_push_str(&mut body, "+");
    }
    crate::text::push_decimal(&mut body, mag);
    match spec {
        FormatSpec::Binary => {
            if alternate { let mut s = owned("0b"); string_push_str(&mut s, body.as_str()); s } else { body }
        },
        FormatSpec::Octal => {
            if alternate { let mut s = owned("0o"); string_push_str(&mut s, body.as_str()); s } else { body }
        },
        FormatSpec::HexLower => {
            if alternate { let mut s = owned("0x"); string_push_str(&mut s, body.as_str()); s } else { body }
        },
        FormatSpec::HexUpper => {
            let chars = crate::text::chars_of(body.as_str());
            let mut up: Vec<char> = Vec::new();
            let mut i: usize = 0;
            while i < chars.len()
                invariant
                    i <= chars@.len(),
                    up@ == chars@.subrange(0, i as int).map_values(|c: char| if 'a' <= c && c <= 'f' { upper_char(c) } else { c }),
                decreases chars.len() - i,
            {
                let c = chars[i];
                let u = if 'a' <= c && c <= 'f' { crate::strops::upper_char_exec(c) } else { c };
                up.push(u);
                i = i + 1;
                assert(up@ =~= chars@.subrange(0, i as int).map_values(|c: char| if 'a' <= c && c <= 'f' { upper_char(c) } else { c }));
            }
            assert(chars@.subrange(0, chars@.len() as int) =~= chars@);
            let upper = crate::text::string_from_chars(&up);
            if alternate { let mut s = owned("0X"); string_push_str(&mut s, upper.as_str()); s } else { upper }
        },
        _ => body,
    }
}

} // verus!
