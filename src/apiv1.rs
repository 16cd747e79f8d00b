use vstd::prelude::*;

verus! {

/// A way of looking up a user on the scoring service.
#[derive(Clone, Debug)]
pub enum UserLookup {
    /// Look up by id.
    Id(u32),
    /// Look up by user name.
    Name(String),
}

/// The decimal digit `d`, below ten.
pub open spec fn digit(d: nat) -> char {
    if d == 0 {
        '0'
    } else if d == 1 {
        '1'
    } else if d == 2 {
        '2'
    } else if d == 3 {
        '3'
    } else if d == 4 {
        '4'
    } else if d == 5 {
        '5'
    } else if d == 6 {
        '6'
    } else if d == 7 {
        '7'
    } else if d == 8 {
        '8'
    } else {
        '9'
    }
}

/// `n` written in decimal, without leading zeros.
pub open spec fn decimal(n: nat) -> Seq<char>
    decreases n,
{
    if n < 10 {
        seq![digit(n)]
    } else {
        decimal(n / 10).push(digit(n % 10))
    }
}

/// Relies on `u32`'s `Display` (through `ToString::to_string`), which writes
/// the number in decimal without leading zeros.
#[verifier::external_body]
fn decimal_string(n: u32) -> (r: String)
    ensures
        r@ == decimal(n as nat),
{
    n.to_string()
}

impl UserLookup {
    /// The text that names the user in a query: the id in decimal, or the
    /// user name.
    pub fn to_string(&self) -> (r: String)
        ensures
            match self {
                UserLookup::Id(n) => r@ == decimal(*n as nat),
                UserLookup::Name(name) => r@ == name@,
            },
    {
        match self {
            UserLookup::Id(n) => decimal_string(*n),
            UserLookup::Name(name) => name.clone(),
        }
    }

    /// Looks up by the user name `name`.
    pub open spec fn is_name(self, name: Seq<char>) -> bool {
        self matches UserLookup::Name(n) && n@ == name
    }
}

impl From<u32> for UserLookup {
    fn from(n: u32) -> (r: UserLookup) {
        UserLookup::Id(n)
    }
}

impl vstd::std_specs::convert::FromSpecImpl<u32> for UserLookup {
    open spec fn obeys_from_spec() -> bool {
        true
    }

    open spec fn from_spec(n: u32) -> UserLookup {
        UserLookup::Id(n)
    }
}

impl<'a> From<&'a str> for UserLookup {
    fn from(s: &'a str) -> (r: UserLookup)
        ensures
            r.is_name(s@),
    {
        UserLookup::Name(s.to_owned())
    }
}

impl<'a> vstd::std_specs::convert::FromSpecImpl<&'a str> for UserLookup {
    // a `String` is known by its characters only, so the result is described
    // by the `ensures` of `from` instead
    open spec fn obeys_from_spec() -> bool {
        false
    }

    open spec fn from_spec(s: &'a str) -> UserLookup {
        choose|r: UserLookup| #[trigger] r.is_name(s@)
    }
}

} // verus!
