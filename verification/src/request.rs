//! The requests that fetch the listing: the address of a page and the headers
//! that go with it.

use vstd::prelude::*;
use vstd::string::*;

verus! {

/// The character of a decimal digit.
pub open spec fn digit_char(d: nat) -> char {
    if d == 0 {
        '0'
    } else if d == 1 {
        '1'
    } else if d == 2 {
        '2'
    } else if d == 3 {
        '3'
    } else if d == 4 {
        '4'
    } else if d == 5 {
        '5'
    } else if d == 6 {
        '6'
    } else if d == 7 {
        '7'
    } else if d == 8 {
        '8'
    } else {
        '9'
    }
}

/// A number in decimal digits, without leading zeros.
pub open spec fn digits_of(n: nat) -> Seq<char>
    decreases n,
{
    if n < 10 {
        seq![digit_char(n)]
    } else {
        digits_of(n / 10).push(digit_char(n % 10))
    }
}

/// The address of the listing up to the page number.
pub open spec fn listing_address() -> Seq<char> {
    "https://api.github.com/repos/godotengine/godot-builds/releases?per_page=100&page="@
}

/// The address of page `page` of the listing.
pub open spec fn page_address(page: u64) -> Seq<char> {
    listing_address() + digits_of(page as nat)
}

/// The name that the requests give as their user agent.
pub open spec fn agent_name() -> Seq<char> {
    "gdvm"@
}

/// What the authorization header holds for an access token.
pub open spec fn authorization_of(token: Seq<char>) -> Seq<char> {
    "token "@ + token
}

/// One request for a page of the listing: its address and the two headers
/// that go with it.
#[derive(Debug)]
pub struct Request {
    pub url: String,
    pub user_agent: String,
    pub authorization: String,
}

impl Request {
    /// Whether this is the request for page `page` made with `token`.
    pub open spec fn is_for(&self, page: u64, token: Seq<char>) -> bool {
        &&& self.url@ == page_address(page)
        &&& self.user_agent@ == agent_name()
        &&& self.authorization@ == authorization_of(token)
    }
}

fn digit_text(d: u64) -> (r: &'static str)
    requires
        d < 10,
    ensures
        r@ == seq![digit_char(d as nat)],
{
    proof {
        reveal_strlit("0");
        reveal_strlit("1");
        reveal_strlit("2");
        reveal_strlit("3");
        reveal_strlit("4");
        reveal_strlit("5");
        reveal_strlit("6");
        reveal_strlit("7");
        reveal_strlit("8");
        reveal_strlit("9");
    }
    let r = if d == 0 {
        "0"
    } else if d == 1 {
        "1"
    } else if d == 2 {
        "2"
    } else if d == 3 {
        "3"
    } else if d == 4 {
        "4"
    } else if d == 5 {
        "5"
    } else if d == 6 {
        "6"
    } else if d == 7 {
        "7"
    } else if d == 8 {
        "8"
    } else {
        "9"
    };
    assert(r@ =~= seq![digit_char(d as nat)]);
    r
}

/// Writes a number in decimal digits.
pub fn decimal_text(n: u64) -> (r: String)
    ensures
        r@ == digits_of(n as nat),
{
    let mut left: u64 = n;
    let mut out = String::new();
    while left >= 10
        invariant
            digits_of(n as nat) == digits_of(left as nat) + out@,
        decreases left,
    {
        let ghost before = out@;
        out = String::from_str(digit_text(left % 10)).concat(out.as_str());
        proof {
            assert(digits_of((left / 10) as nat).push(digit_char((left % 10) as nat)) + before
                =~= digits_of((left / 10) as nat) + out@);
        }
        left = left / 10;
    }
    String::from_str(digit_text(left)).concat(out.as_str())
}

/// The address of page `page` of the listing.
pub fn page_url(page: u64) -> (r: String)
    ensures
        r@ == page_address(page),
{
    let number = decimal_text(page);
    String::from_str(
        "https://api.github.com/repos/godotengine/godot-builds/releases?per_page=100&page=",
    ).concat(number.as_str())
}

/// The name that the requests give as their user agent.
pub fn user_agent() -> (r: &'static str)
    ensures
        r@ == agent_name(),
{
    "gdvm"
}

/// What the authorization header holds for an access token.
pub fn authorization(token: &str) -> (r: String)
    ensures
        r@ == authorization_of(token@),
{
    String::from_str("token ").concat(token)
}

/// The request for page `page` of the listing, made with an access token.
pub fn request_for(page: u64, token: &str) -> (r: Request)
    ensures
        r.is_for(page, token@),
{
    Request {
        url: page_url(page),
        user_agent: String::from_str(user_agent()),
        authorization: authorization(token),
    }
}

} // verus!
