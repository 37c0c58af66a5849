use vstd::prelude::*;
use vstd::string::StringExecFns;
use vstd::utf8::encode_utf8;
use crate::reverse_rng::data_point::Decimal;
use crate::reverse_rng::input::{parse_decimal, parse_decimal_spec};
use crate::text::{decimal_chars, digit_char, u64_text};

verus! {

/// The percentages read off the game for each chamber reward, as typed.
pub struct AppState {
    pub assault: String,
    pub grasp: String,
    pub ambush: String,
    pub favor: String,
    pub lunge: String,
    pub soul: String,
    pub strike: String,
    pub eclipse: String,
    pub affluence: String,
    pub shot: String,
    pub flourish: String,
    pub defiance: String,
    pub text_output: String,
}

/// Whether `text` is a decimal number within `[lo, hi]`, read as the input
/// parser reads numbers: rounded to nine decimals, so 30.0000000001 counts
/// as 30.
pub open spec fn percent_in(text: Seq<char>, lo: int, hi: int) -> bool {
    parse_decimal_spec(encode_utf8(text)) matches Some(d) && lo * 1_000_000_000 <= d.nano() <= hi
        * 1_000_000_000
}

/// `n` units of 10^-9 rounded to a whole number, ties to even.
pub open spec fn round_half_even(n: nat) -> nat {
    let q = n / 1_000_000_000;
    let r = n % 1_000_000_000;
    if r > 500_000_000 || (r == 500_000_000 && q % 2 == 1) {
        q + 1
    } else {
        q
    }
}

/// `d / 100` rounded to hundredths (ties to even), in hundredths: `d`
/// rounded to a whole number.
pub open spec fn percent_hundredths(d: Decimal) -> int {
    if d.nano() >= 0 {
        round_half_even(d.nano() as nat) as int
    } else {
        -(round_half_even((-d.nano()) as nat) as int)
    }
}

/// The text of `h / 100` with two decimals.
pub open spec fn hundredths_chars(h: int) -> Seq<char> {
    let a = if h < 0 { -h } else { h };
    (if h < 0 { "-"@ } else { ""@ }) + decimal_chars((a / 100) as nat) + "."@ + seq![
        digit_char(((a % 100) / 10) as nat),
        digit_char((a % 10) as nat),
    ]
}

/// The observation line for a field whose text is `text`: nothing when the
/// text is not a number.
pub open spec fn range_line(prefix: Seq<char>, text: Seq<char>) -> Seq<char> {
    match parse_decimal_spec(encode_utf8(text)) {
        Some(d) => prefix + hundredths_chars(percent_hundredths(d)) + "\n"@,
        None => Seq::empty(),
    }
}

/// Whether the decimal `d` lies within `[lo, hi]`.
fn decimal_within(d: &Decimal, lo: i64, hi: i64) -> (r: bool)
    requires
        d.wf(),
        0 <= lo <= hi <= 100,
    ensures
        r == (lo * 1_000_000_000 <= d.nano() <= hi * 1_000_000_000),
{
    let n = d.to_nano();
    n >= lo as i128 * 1_000_000_000 && n <= hi as i128 * 1_000_000_000
}

/// Whether `text` is a decimal number within `[lo, hi]`.
fn text_within(text: &String, lo: i64, hi: i64) -> (r: bool)
    requires
        0 <= lo <= hi <= 100,
    ensures
        r == percent_in(text@, lo as int, hi as int),
{
    match parse_decimal(text.as_str().as_bytes()) {
        Some(d) => decimal_within(&d, lo, hi),
        None => false,
    }
}

/// Two decimal digits of `x < 100`.
fn two_digits(x: u64) -> (r: String)
    requires
        x < 100,
    ensures
        r@ == seq![digit_char((x / 10) as nat), digit_char((x % 10) as nat)],
{
    let mut r = String::new();
    let tens = u64_text(x / 10);
    let ones = u64_text(x % 10);
    r.append(tens.as_str());
    r.append(ones.as_str());
    proof {
        assert(r@ =~= seq![digit_char((x / 10) as nat), digit_char((x % 10) as nat)]);
    }
    r
}

/// Appends the observation line of a field, if its text is a number.
fn push_range_line(out: &mut String, prefix: &str, text: &String)
    ensures
        final(out)@ == old(out)@ + range_line(prefix@, text@),
{
    match parse_decimal(text.as_str().as_bytes()) {
        Some(d) => {
            let n = d.to_nano();
            let negative = n < 0;
            let a: i128 = if negative { -n } else { n };
            let q = a / 1_000_000_000;
            let rem = a % 1_000_000_000;
            let h = (if rem > 500_000_000 || (rem == 500_000_000 && q % 2 == 1) {
                q + 1
            } else {
                q
            }) as u64;
            proof {
                assert(percent_hundredths(d) == if negative { -(h as int) } else { h as int });
            }
            let ghost o0 = out@;
            out.append(prefix);
            if negative && h != 0 {
                out.append("-");
            }
            let whole = u64_text(h / 100);
            out.append(whole.as_str());
            out.append(".");
            let frac = two_digits(h % 100);
            out.append(frac.as_str());
            out.append("\n");
            proof {
                let hh = percent_hundredths(d);
                assert((h as int % 100) / 10 == (h as int / 10) % 10) by (nonlinear_arith)
                    requires
                        h >= 0,
                ;
                assert(h as int % 100 % 10 == h as int % 10) by (nonlinear_arith)
                    requires
                        h >= 0,
                ;
                let a = if hh < 0 { -hh } else { hh };
                assert(a == h as int);
                assert((hh < 0) == (negative && h != 0));
                assert(parse_decimal_spec(encode_utf8(text@)) == Some(d));
                assert(hundredths_chars(hh) =~= (if hh < 0 { "-"@ } else { ""@ }) + decimal_chars((h / 100) as nat) + "."@
                    + seq![digit_char(((h % 100) / 10) as nat), digit_char((h % 10) as nat)]);
                assert(range_line(prefix@, text@) == prefix@ + hundredths_chars(hh) + "\n"@);
                reveal_strlit("");
                assert(""@.len() == 0);
                assert(""@ + decimal_chars((h / 100) as nat) =~= decimal_chars((h / 100) as nat));
                assert(out@ =~= o0 + range_line(prefix@, text@));
            }
        },
        None => {
            proof {
                assert(out@ + Seq::<char>::empty() =~= out@);
            }
        },
    }
}

impl AppState {
    /// The state a session starts in.
    pub open spec fn is_initial(&self) -> bool {
        &&& self.assault@.len() == 0
        &&& self.grasp@ == "1"@
        &&& self.ambush@.len() == 0
        &&& self.favor@.len() == 0
        &&& self.lunge@.len() == 0
        &&& self.soul@.len() == 0
        &&& self.strike@.len() == 0
        &&& self.eclipse@.len() == 0
        &&& self.affluence@ == "Not needed."@
        &&& self.shot@.len() == 0
        &&& self.flourish@.len() == 0
        &&& self.defiance@ == "1"@
        &&& self.text_output@ == "Enter percentage values for each field.\n"@
    }

    /// Whether every percentage lies within its reward's range.
    pub fn is_valid(&self) -> (r: bool)
        ensures
            r == (percent_in(self.assault@, 30, 50) && percent_in(self.ambush@, 60, 80) && percent_in(
                self.favor@,
                11,
                20,
            ) && percent_in(self.lunge@, 40, 60) && percent_in(self.soul@, 30, 40) && percent_in(
                self.strike@,
                30,
                40,
            ) && percent_in(self.eclipse@, 50, 80) && percent_in(self.shot@, 30, 40) && percent_in(
                self.flourish@,
                30,
                60,
            )),
    {
        self.is_assault_valid() && self.is_ambush_valid() && self.is_favor_valid() && self.is_lunge_valid()
            && self.is_soul_valid() && self.is_strike_valid() && self.is_eclipse_valid() && self.is_shot_valid()
            && self.is_flourish_valid()
    }

    /// Whether the assault percentage lies in `[30, 50]`.
    pub fn is_assault_valid(&self) -> (r: bool)
        ensures
            r == percent_in(self.assault@, 30, 50),
    {
        text_within(&self.assault, 30, 50)
    }

    /// Whether the ambush percentage lies in `[60, 80]`.
    pub fn is_ambush_valid(&self) -> (r: bool)
        ensures
            r == percent_in(self.ambush@, 60, 80),
    {
        text_within(&self.ambush, 60, 80)
    }

    /// Whether the favor percentage lies in `[11, 20]`.
    pub fn is_favor_valid(&self) -> (r: bool)
        ensures
            r == percent_in(self.favor@, 11, 20),
    {
        text_within(&self.favor, 11, 20)
    }

    /// Whether the lunge percentage lies in `[40, 60]`.
    pub fn is_lunge_valid(&self) -> (r: bool)
        ensures
            r == percent_in(self.lunge@, 40, 60),
    {
        text_within(&self.lunge, 40, 60)
    }

    /// Whether the soul percentage lies in `[30, 40]`.
    pub fn is_soul_valid(&self) -> (r: bool)
        ensures
            r == percent_in(self.soul@, 30, 40),
    {
        text_within(&self.soul, 30, 40)
    }

    /// Whether the strike percentage lies in `[30, 40]`.
    pub fn is_strike_valid(&self) -> (r: bool)
        ensures
            r == percent_in(self.strike@, 30, 40),
    {
        text_within(&self.strike, 30, 40)
    }

    /// Whether the eclipse percentage lies in `[50, 80]`.
    pub fn is_eclipse_valid(&self) -> (r: bool)
        ensures
            r == percent_in(self.eclipse@, 50, 80),
    {
        text_within(&self.eclipse, 50, 80)
    }

    /// Whether the shot percentage lies in `[30, 40]`.
    pub fn is_shot_valid(&self) -> (r: bool)
        ensures
            r == percent_in(self.shot@, 30, 40),
    {
        text_within(&self.shot, 30, 40)
    }

    /// Whether the flourish percentage lies in `[30, 60]`.
    pub fn is_flourish_valid(&self) -> (r: bool)
        ensures
            r == percent_in(self.flourish@, 30, 60),
    {
        text_within(&self.flourish, 30, 60)
    }

    /// Starts the session over.
    pub fn clear(&mut self)
        ensures
            final(self).is_initial(),
    {
        *self = Self::default();
    }

    /// The observation records of the fields that hold a number, one line
    /// each in the comma-separated form: name, offset, scale and the
    /// percentage as a fraction with two decimals. The percentage is exact,
    /// and a tie rounds to even: 12.5 (0.125) gives 0.12 and 30.5 (0.305)
    /// gives 0.30.
    pub fn generate_range_format(&self) -> (r: String)
        ensures
            r@ == range_line("assault,14,0.30,0.50,"@, self.assault@) + range_line(
                "ambush,18,0.60,0.80,"@,
                self.ambush@,
            ) + range_line("favor,20,0.11,0.20,"@, self.favor@) + range_line(
                "lunge,22,0.40,0.60,"@,
                self.lunge@,
            ) + range_line("soul,24,0.30,0.40,"@, self.soul@) + range_line(
                "strike,26,0.30,0.40,"@,
                self.strike@,
            ) + range_line("eclipse,28,0.50,0.80,"@, self.eclipse@) + range_line(
                "shot,32,0.30,0.40,"@,
                self.shot@,
            ) + range_line("flourish,34,0.30,0.60,"@, self.flourish@),
    {
        let mut output = String::new();
        push_range_line(&mut output, "assault,14,0.30,0.50,", &self.assault);
        push_range_line(&mut output, "ambush,18,0.60,0.80,", &self.ambush);
        push_range_line(&mut output, "favor,20,0.11,0.20,", &self.favor);
        push_range_line(&mut output, "lunge,22,0.40,0.60,", &self.lunge);
        push_range_line(&mut output, "soul,24,0.30,0.40,", &self.soul);
        push_range_line(&mut output, "strike,26,0.30,0.40,", &self.strike);
        push_range_line(&mut output, "eclipse,28,0.50,0.80,", &self.eclipse);
        push_range_line(&mut output, "shot,32,0.30,0.40,", &self.shot);
        push_range_line(&mut output, "flourish,34,0.30,0.60,", &self.flourish);
        proof {
            assert(Seq::<char>::empty() + range_line("assault,14,0.30,0.50,"@, self.assault@) =~= range_line(
                "assault,14,0.30,0.50,"@,
                self.assault@,
            ));
        }
        output
    }
}

impl Default for AppState {
    fn default() -> (r: Self)
        ensures
            r.is_initial(),
    {
        AppState {
            assault: String::new(),
            grasp: "1".to_owned(),
            ambush: String::new(),
            favor: String::new(),
            lunge: String::new(),
            soul: String::new(),
            strike: String::new(),
            eclipse: String::new(),
            affluence: "Not needed.".to_owned(),
            shot: String::new(),
            flourish: String::new(),
            defiance: "1".to_owned(),
            text_output: "Enter percentage values for each field.\n".to_owned(),
        }
    }
}

} // verus!
