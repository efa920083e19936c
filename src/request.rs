use vstd::prelude::*;
use vstd::string::*;

verus! {

/// The service that the identifiers refer to.
pub const BASE_URL: &'static str = "https://hacker-news.firebaseio.com/";

/// The digit character for `d`, which is below ten.
pub open spec fn digit_char(d: nat) -> char {
    seq!['0', '1', '2', '3', '4', '5', '6', '7', '8', '9'][d as int]
}

/// The decimal digits of `n`, without leading zeros.
pub open spec fn decimal_digits(n: nat) -> Seq<char>
    decreases n,
{
    if n < 10 {
        seq![digit_char(n)]
    } else {
        decimal_digits(n / 10).push(digit_char(n % 10))
    }
}

/// `n` written in decimal, with a minus sign when it is negative.
pub open spec fn decimal(n: int) -> Seq<char> {
    if n < 0 {
        seq!['-'] + decimal_digits((-n) as nat)
    } else {
        decimal_digits(n as nat)
    }
}

/// The path, relative to the service, of the item with identifier `id`.
pub open spec fn item_path_of(id: i32) -> Seq<char> {
    "/v0/item/"@ + decimal(id as int) + ".json?print=pretty"@
}

/// Relies on `i32`'s `Display`, which writes the number in decimal.
#[verifier::external_body]
fn decimal_string(n: i32) -> (r: String)
    ensures
        r@ == decimal(n as int),
{
    n.to_string()
}

/// The path of the item with identifier `id`.
pub fn item_path(id: i32) -> (r: String)
    ensures
        r@ == item_path_of(id),
{
    let mut p = String::from_str("/v0/item/");
    let d = decimal_string(id);
    p.append(d.as_str());
    p.append(".json?print=pretty");
    p
}

#[verifier::external_type_specification]
#[verifier::external_body]
pub struct ExUrl(url::Url);

#[verifier::external_type_specification]
#[verifier::external_body]
pub struct ExParseError(url::ParseError);

/// Relies on `url::Url::parse`, to read the address of the service.
pub assume_specification[ url::Url::parse ](input: &str) -> Result<url::Url, url::ParseError>;

/// Relies on `url::Url::join`, to resolve an item's path against the service's address.
pub assume_specification[ url::Url::join ](base: &url::Url, input: &str) -> Result<
    url::Url,
    url::ParseError,
>;

/// The address of the service.
pub fn base_url() -> Result<url::Url, url::ParseError> {
    url::Url::parse(BASE_URL)
}

/// The address of the item with identifier `id`: its path resolved against `base`.
pub fn item_url(base: &url::Url, id: i32) -> Result<url::Url, url::ParseError> {
    let p = item_path(id);
    base.join(p.as_str())
}

/// The address of the list of top stories.
pub fn top_stories_url(base: &url::Url) -> Result<url::Url, url::ParseError> {
    base.join("/v0/topstories.json")
}

} // verus!
