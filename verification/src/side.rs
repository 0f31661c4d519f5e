use vstd::prelude::*;

verus! {

/// Direction of an order or of a trade.
#[derive(Debug, Clone, Copy, PartialEq, Eq, Structural)]
pub enum Side {
    Buy,
    Sell,
}

/// The upper-case form of a string, as `str::to_uppercase` maps it (by the
/// Unicode case tables, one character possibly to several).
pub uninterp spec fn uppercase(s: Seq<char>) -> Seq<char>;

/// Every character is ASCII.
pub open spec fn is_ascii(s: Seq<char>) -> bool {
    forall|i: int| 0 <= i < s.len() ==> (#[trigger] s[i] as u32) < 128
}

/// The ASCII upper-case form of a character: `'a'..='z'` become
/// `'A'..='Z'`, every other character stays as it is.
pub open spec fn ascii_upper(c: char) -> char {
    if 97 <= (c as u32) <= 122 {
        ((c as u32) - 32) as char
    } else {
        c
    }
}

/// The ASCII upper-case form of a string, character by character.
pub open spec fn ascii_upper_all(s: Seq<char>) -> Seq<char> {
    s.map_values(|c: char| ascii_upper(c))
}

/// `str::to_uppercase`. Trusted: its result is the string's upper-case form,
/// a function of the string alone; on an ASCII string it is the ASCII
/// upper-case form (lower-case letters raised, every other character kept).
/// What it is on other strings, character by character, is left to the
/// Unicode tables that std implements.
#[verifier::external_body]
fn to_uppercase(s: &str) -> (r: String)
    ensures
        r@ == uppercase(s@),
        is_ascii(s@) ==> r@ == ascii_upper_all(s@),
{
    s.to_uppercase()
}

/// The side an upper-cased name names.
pub open spec fn side_of_name(upper: Seq<char>) -> Option<Side> {
    if upper == "BUY"@ {
        Some(Side::Buy)
    } else if upper == "SELL"@ {
        Some(Side::Sell)
    } else {
        None
    }
}

/// The name of a side.
pub open spec fn name_of(side: Side) -> Seq<char> {
    match side {
        Side::Buy => "BUY"@,
        Side::Sell => "SELL"@,
    }
}

/// A side's name names it again: its name is ASCII and upper-case, so
/// `Side::from_name(side.name())` is `Some(side)`.
pub proof fn lemma_name_names_side(side: Side)
    ensures
        is_ascii(name_of(side)),
        side_of_name(ascii_upper_all(name_of(side))) == Some(side),
{
    reveal_strlit("BUY");
    reveal_strlit("SELL");
    assert("BUY"@.len() != "SELL"@.len());
    let n = name_of(side);
    assert(ascii_upper_all(n) =~= n);
}

impl Side {
    /// The side named by `name`, in any letter case: `"BUY"` or `"SELL"`
    /// once upper-cased; `None` for any other name.
    pub fn from_name(name: &str) -> (r: Option<Side>)
        ensures
            r == side_of_name(uppercase(name@)),
            is_ascii(name@) ==> r == side_of_name(ascii_upper_all(name@)),
    {
        proof {
            reveal_strlit("BUY");
            reveal_strlit("SELL");
            assert("BUY"@.len() != "SELL"@.len());
        }
        let upper = to_uppercase(name);
        if upper == String::from_str("BUY") {
            Some(Side::Buy)
        } else if upper == String::from_str("SELL") {
            Some(Side::Sell)
        } else {
            None
        }
    }

    /// The name of the side: `"BUY"` or `"SELL"`.
    pub fn name(self) -> (r: &'static str)
        ensures
            r@ == name_of(self),
    {
        match self {
            Side::Buy => "BUY",
            Side::Sell => "SELL",
        }
    }

    /// Whether an order event of this side adds to the order-flow imbalance:
    /// a new buy order and a cancelled sell order push it up, a new sell
    /// order and a cancelled buy order push it down.
    pub fn adds_to_flow(self, is_cancel: bool) -> (up: bool)
        ensures
            up == ((self == Side::Buy) != is_cancel),
    {
        match self {
            Side::Buy => !is_cancel,
            Side::Sell => is_cancel,
        }
    }
}

} // verus!
