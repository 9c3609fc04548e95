//! Styled terminal text as a pure value: a message plus the ANSI codes to
//! wrap it in. Rendering yields the final string; printing it is the
//! caller's concern.

use vstd::prelude::*;
use vstd::string::*;
use crate::errors::CocoError;

verus! {

/// The decimal digit character for `d % 10`.
pub open spec fn digit_char(d: nat) -> char {
    "0123456789"@[(d % 10) as int]
}

/// The decimal rendering of `n`, most significant digit first.
pub open spec fn dec_of(n: nat) -> Seq<char>
    decreases n,
{
    if n < 10 {
        seq![digit_char(n)]
    } else {
        dec_of(n / 10).push(digit_char(n % 10))
    }
}

/// The code list rendered with `;` between consecutive codes.
pub open spec fn codes_render(codes: Seq<u8>) -> Seq<char>
    decreases codes.len(),
{
    if codes.len() == 0 {
        Seq::empty()
    } else if codes.len() == 1 {
        dec_of(codes[0] as nat)
    } else {
        codes_render(codes.drop_last()) + seq![';'] + dec_of(codes.last() as nat)
    }
}

/// The full ANSI rendering: escape prefix, codes, the text, and the reset.
pub open spec fn render_view(text: Seq<char>, codes: Seq<u8>) -> Seq<char> {
    "\u{1b}["@ + codes_render(codes) + "m"@ + text + "\u{1b}[0m"@
}

/// The decimal rendering of one byte.
fn u8_to_string(n: u8) -> (r: String)
    ensures
        r@ == dec_of(n as nat),
{
    let ds = "0123456789";
    proof {
        reveal_strlit("0123456789");
        assert(ds@.len() == 10);
    }
    assert(ds.is_ascii()) by {
        assert(forall|i: int| 0 <= i < 10 ==> '\0' <= #[trigger] ds@[i] <= '\u{7f}');
    }
    if n < 10 {
        let d = ds.substring_ascii(n as usize, n as usize + 1);
        proof {
            assert(d@ =~= seq![digit_char(n as nat)]);
        }
        String::from_str(d)
    } else if n < 100 {
        let hi: u8 = n / 10;
        let lo: u8 = n % 10;
        let d1 = ds.substring_ascii(hi as usize, hi as usize + 1);
        let d2 = ds.substring_ascii(lo as usize, lo as usize + 1);
        let r = String::from_str(d1).concat(d2);
        proof {
            assert(dec_of(n as nat) == dec_of(n as nat / 10).push(digit_char(n as nat % 10)));
            assert(r@ =~= seq![digit_char(hi as nat), digit_char(lo as nat)]);
            assert(dec_of(hi as nat) =~= seq![digit_char(hi as nat)]);
            assert(dec_of(n as nat) =~= r@);
        }
        r
    } else {
        let hi: u8 = n / 100;
        let mid: u8 = (n / 10) % 10;
        let lo: u8 = n % 10;
        let d1 = ds.substring_ascii(hi as usize, hi as usize + 1);
        let d2 = ds.substring_ascii(mid as usize, mid as usize + 1);
        let d3 = ds.substring_ascii(lo as usize, lo as usize + 1);
        let r = String::from_str(d1).concat(d2).concat(d3);
        proof {
            assert(n as nat / 10 / 10 == n as nat / 100) by (nonlinear_arith);
            assert(dec_of(n as nat) == dec_of(n as nat / 10).push(digit_char(n as nat % 10)));
            assert(dec_of(n as nat / 10) == dec_of(n as nat / 100).push(
                digit_char(n as nat / 10 % 10),
            ));
            assert(dec_of(n as nat / 100) =~= seq![digit_char(hi as nat)]);
            assert(dec_of(n as nat) =~= r@);
        }
        r
    }
}

/// A message together with the ANSI style codes applied to it so far.
#[derive(Debug)]
pub struct Fmt {
    pub text: String,
    pub codes: Vec<u8>,
}

/// Wrapping a value's message in an `Fmt`, ready for styling.
pub trait FmtTrait {
    /// The characters of the message that `fmt` wraps.
    spec fn fmt_text(&self) -> Seq<char>;

    /// Wraps the value's message in an unstyled `Fmt`.
    fn fmt(&self) -> (r: Fmt)
        ensures
            r.text@ == self.fmt_text(),
            r.codes@ == Seq::<u8>::empty(),
    ;
}

impl FmtTrait for CocoError {
    open spec fn fmt_text(&self) -> Seq<char> {
        self.message_view()
    }

    fn fmt(&self) -> (r: Fmt) {
        Fmt::from(self.message().as_str())
    }
}

impl FmtTrait for String {
    open spec fn fmt_text(&self) -> Seq<char> {
        self@
    }

    fn fmt(&self) -> (r: Fmt) {
        Fmt::from(self.as_str())
    }
}

/// Appends one style code to the text's code list.
fn add_format(text: &Fmt, code: u8) -> (r: Fmt)
    ensures
        r.text@ == text.text@,
        r.codes@ == text.codes@.push(code),
{
    let mut codes = text.codes.clone();
    proof {
        assert(codes@ =~= text.codes@);
    }
    codes.push(code);
    Fmt { text: text.text.clone(), codes }
}

impl Fmt {
    /// Starts an unstyled `Fmt` over the given text.
    pub fn from(value: &str) -> (r: Self)
        ensures
            r.text@ == value@,
            r.codes@ == Seq::<u8>::empty(),
    {
        Fmt { text: String::from_str(value), codes: Vec::new() }
    }

    /// The same text with all the given codes appended in order.
    pub fn apply(&self, codes: Vec<u8>) -> (r: Self)
        ensures
            r.text@ == self.text@,
            r.codes@ == self.codes@ + codes@,
    {
        let mut init_codes = self.codes.clone();
        proof {
            assert(init_codes@ =~= self.codes@);
            assert(self.codes@ + codes@.take(0) =~= self.codes@);
        }
        let mut i: usize = 0;
        while i < codes.len()
            invariant
                i <= codes@.len(),
                init_codes@ == self.codes@ + codes@.take(i as int),
            decreases codes@.len() - i,
        {
            init_codes.push(codes[i]);
            proof {
                assert(codes@.take(i + 1) =~= codes@.take(i as int).push(codes@[i as int]));
                assert(self.codes@ + codes@.take(i + 1) =~= (self.codes@ + codes@.take(
                    i as int,
                )).push(codes@[i as int]));
            }
            i += 1;
        }
        proof {
            assert(codes@.take(codes@.len() as int) =~= codes@);
        }
        Fmt { text: self.text.clone(), codes: init_codes }
    }

    /// Styles the text bold.
    pub fn bold(&self) -> (r: Self)
        ensures
            r.text@ == self.text@,
            r.codes@ == self.codes@.push(1u8),
    {
        add_format(self, 1)
    }

    /// Underlines the text.
    pub fn underline(&self) -> (r: Self)
        ensures
            r.text@ == self.text@,
            r.codes@ == self.codes@.push(4u8),
    {
        add_format(self, 4)
    }

    /// Colours the text black.
    pub fn black(&self) -> (r: Self)
        ensures
            r.text@ == self.text@,
            r.codes@ == self.codes@.push(30u8),
    {
        add_format(self, 30)
    }

    /// Colours the text red.
    pub fn red(&self) -> (r: Self)
        ensures
            r.text@ == self.text@,
            r.codes@ == self.codes@.push(31u8),
    {
        add_format(self, 31)
    }

    /// Colours the text green.
    pub fn green(&self) -> (r: Self)
        ensures
            r.text@ == self.text@,
            r.codes@ == self.codes@.push(32u8),
    {
        add_format(self, 32)
    }

    /// Colours the text yellow.
    pub fn yellow(&self) -> (r: Self)
        ensures
            r.text@ == self.text@,
            r.codes@ == self.codes@.push(33u8),
    {
        add_format(self, 33)
    }

    /// Colours the text blue.
    pub fn blue(&self) -> (r: Self)
        ensures
            r.text@ == self.text@,
            r.codes@ == self.codes@.push(34u8),
    {
        add_format(self, 34)
    }

    /// Colours the text pink.
    pub fn pink(&self) -> (r: Self)
        ensures
            r.text@ == self.text@,
            r.codes@ == self.codes@.push(35u8),
    {
        add_format(self, 35)
    }

    /// Colours the text cyan.
    pub fn cyan(&self) -> (r: Self)
        ensures
            r.text@ == self.text@,
            r.codes@ == self.codes@.push(36u8),
    {
        add_format(self, 36)
    }

    /// Colours the text white.
    pub fn white(&self) -> (r: Self)
        ensures
            r.text@ == self.text@,
            r.codes@ == self.codes@.push(37u8),
    {
        add_format(self, 37)
    }

    /// Gives the text a black background.
    pub fn bg_black(&self) -> (r: Self)
        ensures
            r.text@ == self.text@,
            r.codes@ == self.codes@.push(40u8),
    {
        add_format(self, 40)
    }

    /// Gives the text a red background.
    pub fn bg_red(&self) -> (r: Self)
        ensures
            r.text@ == self.text@,
            r.codes@ == self.codes@.push(41u8),
    {
        add_format(self, 41)
    }

    /// Gives the text a green background.
    pub fn bg_green(&self) -> (r: Self)
        ensures
            r.text@ == self.text@,
            r.codes@ == self.codes@.push(42u8),
    {
        add_format(self, 42)
    }

    /// Gives the text a yellow background.
    pub fn bg_yellow(&self) -> (r: Self)
        ensures
            r.text@ == self.text@,
            r.codes@ == self.codes@.push(43u8),
    {
        add_format(self, 43)
    }

    /// Gives the text a blue background.
    pub fn bg_blue(&self) -> (r: Self)
        ensures
            r.text@ == self.text@,
            r.codes@ == self.codes@.push(44u8),
    {
        add_format(self, 44)
    }

    /// Gives the text a purple background.
    pub fn bg_purple(&self) -> (r: Self)
        ensures
            r.text@ == self.text@,
            r.codes@ == self.codes@.push(45u8),
    {
        add_format(self, 45)
    }

    /// Gives the text a cyan background.
    pub fn bg_cyan(&self) -> (r: Self)
        ensures
            r.text@ == self.text@,
            r.codes@ == self.codes@.push(46u8),
    {
        add_format(self, 46)
    }

    /// Gives the text a white background.
    pub fn bg_white(&self) -> (r: Self)
        ensures
            r.text@ == self.text@,
            r.codes@ == self.codes@.push(47u8),
    {
        add_format(self, 47)
    }

    /// The final terminal string: escape prefix, the codes joined with `;`,
    /// the text, and the reset suffix.
    pub fn render(&self) -> (r: String)
        ensures
            r@ == render_view(self.text@, self.codes@),
    {
        let mut out = String::from_str("\u{1b}[");
        let mut i: usize = 0;
        while i < self.codes.len()
            invariant
                i <= self.codes@.len(),
                out@ == "\u{1b}["@ + codes_render(self.codes@.take(i as int)),
            decreases self.codes@.len() - i,
        {
            if i > 0 {
                out.append(";");
            }
            let d = u8_to_string(self.codes[i]);
            out.append(d.as_str());
            proof {
                let pre = self.codes@.take(i as int);
                let cur = self.codes@.take(i + 1);
                assert(cur.drop_last() =~= pre);
                assert(cur.last() == self.codes@[i as int]);
                if i == 0 {
                    assert(codes_render(cur) == dec_of(self.codes@[0] as nat));
                    assert(out@ =~= "\u{1b}["@ + codes_render(cur));
                } else {
                    reveal_strlit(";");
                    assert(codes_render(cur) == codes_render(pre) + seq![';'] + dec_of(
                        self.codes@[i as int] as nat,
                    ));
                    assert(";"@ =~= seq![';']);
                    assert(out@ =~= "\u{1b}["@ + codes_render(cur));
                }
            }
            i += 1;
        }
        out.append("m");
        out.append(self.text.as_str());
        out.append("\u{1b}[0m");
        proof {
            assert(self.codes@.take(self.codes@.len() as int) =~= self.codes@);
            assert(out@ =~= render_view(self.text@, self.codes@));
        }
        out
    }
}

/// The full line for a success notification: a bold white-on-green tag,
/// then the message in green.
pub fn success(message: &str) -> (r: String)
    ensures
        r@ == render_view(" SUCCESS: "@, seq![42u8, 37u8, 1u8]) + " "@ + render_view(
            message@,
            seq![32u8],
        ),
{
    let tag = Fmt::from(" SUCCESS: ").bg_green().white().bold();
    let body = Fmt::from(message).green();
    proof {
        assert(tag.codes@ =~= seq![42u8, 37u8, 1u8]);
        assert(body.codes@ =~= seq![32u8]);
    }
    let r = tag.render().concat(" ").concat(body.render().as_str());
    proof {
        assert(r@ =~= render_view(" SUCCESS: "@, seq![42u8, 37u8, 1u8]) + " "@ + render_view(
            message@,
            seq![32u8],
        ));
    }
    r
}

/// The full line for an error report: a bold black-on-red tag, then the
/// message in red.
pub fn error(message: &str) -> (r: String)
    ensures
        r@ == render_view(" ERROR: "@, seq![41u8, 30u8, 1u8]) + " "@ + render_view(
            message@,
            seq![31u8],
        ),
{
    let tag = Fmt::from(" ERROR: ").bg_red().black().bold();
    let body = Fmt::from(message).red();
    proof {
        assert(tag.codes@ =~= seq![41u8, 30u8, 1u8]);
        assert(body.codes@ =~= seq![31u8]);
    }
    let r = tag.render().concat(" ").concat(body.render().as_str());
    proof {
        assert(r@ =~= render_view(" ERROR: "@, seq![41u8, 30u8, 1u8]) + " "@ + render_view(
            message@,
            seq![31u8],
        ));
    }
    r
}

/// The full line for a warning: a bold black-on-yellow tag, then the
/// message in yellow.
pub fn warn(message: &str) -> (r: String)
    ensures
        r@ == render_view(" WARNING: "@, seq![43u8, 30u8, 1u8]) + " "@ + render_view(
            message@,
            seq![33u8],
        ),
{
    let tag = Fmt::from(" WARNING: ").bg_yellow().black().bold();
    let body = Fmt::from(message).yellow();
    proof {
        assert(tag.codes@ =~= seq![43u8, 30u8, 1u8]);
        assert(body.codes@ =~= seq![33u8]);
    }
    let r = tag.render().concat(" ").concat(body.render().as_str());
    proof {
        assert(r@ =~= render_view(" WARNING: "@, seq![43u8, 30u8, 1u8]) + " "@ + render_view(
            message@,
            seq![33u8],
        ));
    }
    r
}

/// An informational line: the message in blue.
pub fn inform(message: &str) -> (r: String)
    ensures
        r@ == render_view(message@, seq![34u8]),
{
    let body = Fmt::from(message).blue();
    proof {
        assert(body.codes@ =~= seq![34u8]);
    }
    body.render()
}

} // verus!
