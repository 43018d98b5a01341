use vstd::prelude::*;
use vstd::string::StringExecFns;

verus! {

/// The character of a decimal digit.
pub open spec fn digit_char(d: nat) -> char {
    if d == 0 { '0' }
    else if d == 1 { '1' }
    else if d == 2 { '2' }
    else if d == 3 { '3' }
    else if d == 4 { '4' }
    else if d == 5 { '5' }
    else if d == 6 { '6' }
    else if d == 7 { '7' }
    else if d == 8 { '8' }
    else { '9' }
}

/// The decimal notation of `n`, without leading zeros.
pub open spec fn decimal(n: nat) -> Seq<char>
    decreases n,
{
    if n < 10 {
        seq![digit_char(n)]
    } else {
        decimal(n / 10).push(digit_char(n % 10))
    }
}

/// The text of a single decimal digit.
fn digit_str(d: u64) -> (s: &'static str)
    requires
        d < 10,
    ensures
        s@ == seq![digit_char(d as nat)],
{
    proof {
        reveal_strlit("0");
        reveal_strlit("1");
        reveal_strlit("2");
        reveal_strlit("3");
        reveal_strlit("4");
        reveal_strlit("5");
        reveal_strlit("6");
        reveal_strlit("7");
        reveal_strlit("8");
        reveal_strlit("9");
    }
    if d == 0 { "0" }
    else if d == 1 { "1" }
    else if d == 2 { "2" }
    else if d == 3 { "3" }
    else if d == 4 { "4" }
    else if d == 5 { "5" }
    else if d == 6 { "6" }
    else if d == 7 { "7" }
    else if d == 8 { "8" }
    else { "9" }
}

/// Appends the decimal notation of `n` to `s`.
pub fn push_decimal(s: &mut String, n: u64)
    ensures
        final(s)@ == old(s)@ + decimal(n as nat),
    decreases n,
{
    if n >= 10 {
        push_decimal(s, n / 10);
    }
    s.append(digit_str(n % 10));
    assert(s@ =~= old(s)@ + decimal(n as nat));
}

/// An `Entity` is nothing more than a unique identifier that stands for an object in the `World`.
#[derive(Default, Debug, Clone, Copy, PartialEq, Eq, Hash, Structural)]
pub struct Entity(pub u64);

impl Entity {
    /// The identifier that this entity stands for.
    pub open spec fn id(self) -> u64 {
        self.0
    }

    /// Creates a new, initial `Entity` (identifier zero).
    pub fn new() -> (e: Self)
        ensures
            e.id() == 0,
    {
        Entity(0)
    }

    /// Increments the internal identifier.
    pub fn increment(&mut self)
        requires
            old(self).id() < u64::MAX,
        ensures
            final(self).id() == old(self).id() + 1,
    {
        self.0 = self.0 + 1;
    }

    /// Returns the internal identifier.
    pub fn value(&self) -> (v: u64)
        ensures
            v == self.id(),
    {
        self.0
    }

    /// Renders the entity as `Entity(<id>)`, the identifier in decimal notation.
    pub fn to_string(&self) -> (s: String)
        ensures
            s@ == "Entity("@ + decimal(self.id() as nat) + ")"@,
    {
        let mut s = String::from_str("Entity(");
        push_decimal(&mut s, self.0);
        s.append(")");
        s
    }
}

} // verus!
