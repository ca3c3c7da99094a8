use vstd::prelude::*;
use vstd::string::StringExecFns;
use crate::error::{ApiErrorResponse, OsuApiError};

verus! {

pub const STATUS_OK: u16 = 200;
pub const STATUS_BAD_REQUEST: u16 = 400;
pub const STATUS_TOO_MANY_REQUESTS: u16 = 429;
pub const STATUS_SERVICE_UNAVAILABLE: u16 = 503;

/// Number of entries on one ranking page.
pub const RANKING_PAGE_SIZE: i32 = 50;

/// The answer of the token endpoint.
#[derive(Debug)]
pub struct OauthResponse {
    pub token_type: String,
    pub expires_in: i32,
    pub access_token: String,
}

/// Which leaderboard to read.
#[derive(Debug)]
pub enum RankingType {
    Country { code: String },
    Global,
}

/// The query of one ranking page: the country filter, if any, and the page number.
#[derive(Debug)]
pub struct PageQuery {
    pub country: Option<String>,
    pub page: i32,
}

/// Classifies a response. A success keeps the body; 400, 429 and 503 map to
/// their own errors whatever the body holds; any other status is the
/// service's error body (`error_body`, the decoding of `body`) or, where that
/// did not decode, a parsing error that keeps `body` unchanged.
pub fn handle_error(
    status: u16,
    body: Vec<u8>,
    error_body: Result<ApiErrorResponse, serde_json::Error>,
) -> (r: Result<Vec<u8>, OsuApiError>)
    ensures
        status == STATUS_OK <==> r is Ok,
        status == STATUS_OK ==> r == Ok::<Vec<u8>, OsuApiError>(body),
        status == STATUS_BAD_REQUEST ==> r matches Err(OsuApiError::BadRequest),
        status == STATUS_TOO_MANY_REQUESTS ==> r matches Err(OsuApiError::RateLimited),
        status == STATUS_SERVICE_UNAVAILABLE ==> r matches Err(OsuApiError::ServiceUnavailable),
        status != STATUS_OK && status != STATUS_BAD_REQUEST && status != STATUS_TOO_MANY_REQUESTS
            && status != STATUS_SERVICE_UNAVAILABLE ==> match error_body {
            Ok(e) => (r matches Err(OsuApiError::ApiError { inner }) && inner == e),
            Err(_) => (r matches Err(OsuApiError::ParsingError { body: kept, .. }) && kept@ == body@),
        },
{
    if status == STATUS_OK {
        return Ok(body);
    } else if status == STATUS_BAD_REQUEST {
        return Err(OsuApiError::BadRequest);
    } else if status == STATUS_TOO_MANY_REQUESTS {
        return Err(OsuApiError::RateLimited);
    } else if status == STATUS_SERVICE_UNAVAILABLE {
        return Err(OsuApiError::ServiceUnavailable);
    }
    match error_body {
        Ok(inner) => Err(OsuApiError::ApiError { inner }),
        Err(inner) => Err(OsuApiError::ParsingError { inner, body }),
    }
}

/// Turns the decoding of a successful body into the request's result; a body
/// that did not decode is a parsing error that keeps its bytes unchanged.
pub fn parse_bytes<T>(body: Vec<u8>, decoded: Result<T, serde_json::Error>) -> (r: Result<
    T,
    OsuApiError,
>)
    ensures
        decoded is Ok <==> r is Ok,
        decoded matches Ok(v) ==> (r matches Ok(w) && w == v),
        decoded is Err ==> (r matches Err(OsuApiError::ParsingError { body: kept, .. })
            && kept@ == body@),
{
    match decoded {
        Ok(v) => Ok(v),
        Err(inner) => Err(OsuApiError::ParsingError { inner, body }),
    }
}

/// The `Authorization` header value for a token: `Bearer <token>`, or
/// `NoToken` where none was obtained.
pub fn authorization(token: &Option<String>) -> (r: Result<String, OsuApiError>)
    ensures
        token is None <==> r matches Err(OsuApiError::NoToken),
        token matches Some(t) ==> (r matches Ok(h) && h@ == "Bearer "@ + t@),
        r is Ok || r matches Err(OsuApiError::NoToken),
{
    match token {
        Some(t) => Ok(String::from_str("Bearer ").concat(t.as_str())),
        None => Err(OsuApiError::NoToken),
    }
}

impl RankingType {
    /// The query of page `page` of this leaderboard.
    pub fn page_query(&self, page: i32) -> (r: PageQuery)
        ensures
            r.page == page,
            match self {
                RankingType::Country { code } => (r.country matches Some(c) && c@ == code@),
                RankingType::Global => r.country is None,
            },
    {
        match self {
            RankingType::Country { code } => PageQuery { country: Some(code.clone()), page },
            RankingType::Global => PageQuery { country: None, page },
        }
    }
}

/// Number of pages to read for `amount` users: `ceil(amount / 50)`.
pub fn pages_for(amount: i32) -> (r: i32)
    requires
        amount >= 0,
    ensures
        r as int == (amount as int + RANKING_PAGE_SIZE - 1) / (RANKING_PAGE_SIZE as int),
        r as int * RANKING_PAGE_SIZE >= amount,
        (r as int - 1) * RANKING_PAGE_SIZE < amount || r == 0,
{
    if amount == 0 {
        0
    } else {
        (amount - 1) / RANKING_PAGE_SIZE + 1
    }
}

/// The character of a decimal digit.
pub open spec fn digit_char(d: nat) -> char {
    if d == 0 { '0' }
    else if d == 1 { '1' }
    else if d == 2 { '2' }
    else if d == 3 { '3' }
    else if d == 4 { '4' }
    else if d == 5 { '5' }
    else if d == 6 { '6' }
    else if d == 7 { '7' }
    else if d == 8 { '8' }
    else { '9' }
}

/// The decimal digits of `n`, without leading zeros.
pub open spec fn decimal(n: nat) -> Seq<char>
    decreases n,
{
    if n < 10 {
        seq![digit_char(n)]
    } else {
        decimal(n / 10).push(digit_char(n % 10))
    }
}

/// The decimal form of `n`, with a leading `-` when negative.
pub open spec fn signed_decimal(n: int) -> Seq<char> {
    if n < 0 {
        seq!['-'] + decimal((-n) as nat)
    } else {
        decimal(n as nat)
    }
}

fn digit(d: u64) -> (r: &'static str)
    requires
        d < 10,
    ensures
        r@ == seq![digit_char(d as nat)],
{
    if d == 0 {
        proof { reveal_strlit("0"); }
        "0"
    } else if d == 1 {
        proof { reveal_strlit("1"); }
        "1"
    } else if d == 2 {
        proof { reveal_strlit("2"); }
        "2"
    } else if d == 3 {
        proof { reveal_strlit("3"); }
        "3"
    } else if d == 4 {
        proof { reveal_strlit("4"); }
        "4"
    } else if d == 5 {
        proof { reveal_strlit("5"); }
        "5"
    } else if d == 6 {
        proof { reveal_strlit("6"); }
        "6"
    } else if d == 7 {
        proof { reveal_strlit("7"); }
        "7"
    } else if d == 8 {
        proof { reveal_strlit("8"); }
        "8"
    } else {
        proof { reveal_strlit("9"); }
        "9"
    }
}

fn append_decimal(s: &mut String, n: u64)
    ensures
        final(s)@ == old(s)@ + decimal(n as nat),
    decreases n,
{
    if n >= 10 {
        append_decimal(s, n / 10);
    }
    s.append(digit(n % 10));
    proof {
        assert(s@ =~= old(s)@ + decimal(n as nat));
    }
}

fn append_signed(s: &mut String, n: i64)
    ensures
        final(s)@ == old(s)@ + signed_decimal(n as int),
{
    if n < 0 {
        s.append("-");
        proof { reveal_strlit("-"); }
        append_decimal(s, (-(n as i128)) as u64);
        proof {
            assert(s@ =~= old(s)@ + signed_decimal(n as int));
        }
    } else {
        append_decimal(s, n as u64);
    }
}

/// The address of a player's best scores: fixed game mode, one page of 100.
pub fn best_scores_link(user_id: i64) -> (r: String)
    ensures
        r@ == "https://osu.ppy.sh/api/v2/users/"@ + signed_decimal(user_id as int)
            + "/scores/best?mode=osu&limit=100"@,
{
    let mut link = String::from_str("https://osu.ppy.sh/api/v2/users/");
    append_signed(&mut link, user_id);
    link.append("/scores/best?mode=osu&limit=100");
    link
}

/// The country filter of a ranking query, with its separator, if any.
pub open spec fn country_part(country: Option<String>) -> Seq<char> {
    match country {
        Some(code) => "country="@ + code@ + "&"@,
        None => Seq::empty(),
    }
}

/// The address of one page of the performance leaderboard.
pub fn ranking_link(query: &PageQuery) -> (r: String)
    ensures
        r@ == "https://osu.ppy.sh/api/v2/rankings/osu/performance?"@ + country_part(query.country)
            + "cursor[page]="@ + signed_decimal(query.page as int),
{
    let mut link = String::from_str("https://osu.ppy.sh/api/v2/rankings/osu/performance?");
    match &query.country {
        Some(code) => {
            link.append("country=");
            link.append(code.as_str());
            link.append("&");
        },
        None => {},
    }
    link.append("cursor[page]=");
    append_signed(&mut link, query.page as i64);
    link
}

} // verus!
