//! The closed catalog of HTTP status codes that this library knows about,
//! with their numeric codes and reason phrases.
use vstd::prelude::*;

verus! {

#[derive(Clone, Copy, Debug, PartialEq, Eq, Structural)]
pub enum StatusCode {
    OK,
    MovedPermanently,
    Found,
    SeeOther,
    BadRequest,
    Unauthorized,
    Forbidden,
    NotFound,
    MethodNotAllowed,
    LengthRequired,
    IMATeapot,
    InternalServerError,
    HttpVersionNotSupported,
}

impl StatusCode {
    /// The numeric code of each status.
    pub open spec fn code_spec(self) -> u16 {
        match self {
            StatusCode::OK => 200,
            StatusCode::MovedPermanently => 301,
            StatusCode::Found => 302,
            StatusCode::SeeOther => 303,
            StatusCode::BadRequest => 400,
            StatusCode::Unauthorized => 401,
            StatusCode::Forbidden => 403,
            StatusCode::NotFound => 404,
            StatusCode::MethodNotAllowed => 405,
            StatusCode::LengthRequired => 411,
            StatusCode::IMATeapot => 418,
            StatusCode::InternalServerError => 500,
            StatusCode::HttpVersionNotSupported => 505,
        }
    }

    /// Status code as an integer.
    pub fn code(&self) -> (r: u16)
        ensures
            r == self.code_spec(),
    {
        match self {
            StatusCode::OK => 200,
            StatusCode::MovedPermanently => 301,
            StatusCode::Found => 302,
            StatusCode::SeeOther => 303,
            StatusCode::BadRequest => 400,
            StatusCode::Unauthorized => 401,
            StatusCode::Forbidden => 403,
            StatusCode::NotFound => 404,
            StatusCode::MethodNotAllowed => 405,
            StatusCode::LengthRequired => 411,
            StatusCode::IMATeapot => 418,
            StatusCode::InternalServerError => 500,
            StatusCode::HttpVersionNotSupported => 505,
        }
    }

    /// The reason phrase belonging to each status code.
    pub open spec fn phrase_spec(self) -> Seq<u8> {
        match self {
            StatusCode::OK => seq!['O' as u8, 'K' as u8],
            StatusCode::MovedPermanently => seq![
                'M' as u8, 'o' as u8, 'v' as u8, 'e' as u8, 'd' as u8, ' ' as u8,
                'P' as u8, 'e' as u8, 'r' as u8, 'm' as u8, 'a' as u8, 'n' as u8,
                'e' as u8, 'n' as u8, 't' as u8, 'l' as u8, 'y' as u8,
            ],
            StatusCode::Found => seq!['F' as u8, 'o' as u8, 'u' as u8, 'n' as u8, 'd' as u8],
            StatusCode::SeeOther => seq![
                'S' as u8, 'e' as u8, 'e' as u8, ' ' as u8, 'O' as u8, 't' as u8,
                'h' as u8, 'e' as u8, 'r' as u8,
            ],
            StatusCode::BadRequest => seq![
                'B' as u8, 'a' as u8, 'd' as u8, ' ' as u8, 'R' as u8, 'e' as u8,
                'q' as u8, 'u' as u8, 'e' as u8, 's' as u8, 't' as u8,
            ],
            StatusCode::Unauthorized => seq![
                'U' as u8, 'n' as u8, 'a' as u8, 'u' as u8, 't' as u8, 'h' as u8,
                'o' as u8, 'r' as u8, 'i' as u8, 'z' as u8, 'e' as u8, 'd' as u8,
            ],
            StatusCode::Forbidden => seq![
                'F' as u8, 'o' as u8, 'r' as u8, 'b' as u8, 'i' as u8, 'd' as u8,
                'd' as u8, 'e' as u8, 'n' as u8,
            ],
            StatusCode::NotFound => seq![
                'N' as u8, 'o' as u8, 't' as u8, ' ' as u8, 'F' as u8, 'o' as u8,
                'u' as u8, 'n' as u8, 'd' as u8,
            ],
            StatusCode::MethodNotAllowed => seq![
                'M' as u8, 'e' as u8, 't' as u8, 'h' as u8, 'o' as u8, 'd' as u8,
                ' ' as u8, 'N' as u8, 'o' as u8, 't' as u8, ' ' as u8, 'A' as u8,
                'l' as u8, 'l' as u8, 'o' as u8, 'w' as u8, 'e' as u8, 'd' as u8,
            ],
            StatusCode::LengthRequired => seq![
                'L' as u8, 'e' as u8, 'n' as u8, 'g' as u8, 't' as u8, 'h' as u8,
                ' ' as u8, 'R' as u8, 'e' as u8, 'q' as u8, 'u' as u8, 'i' as u8,
                'r' as u8, 'e' as u8, 'd' as u8,
            ],
            StatusCode::IMATeapot => seq![
                'I' as u8, '\'' as u8, 'm' as u8, ' ' as u8, 'a' as u8, ' ' as u8,
                't' as u8, 'e' as u8, 'a' as u8, 'p' as u8, 'o' as u8, 't' as u8,
            ],
            StatusCode::InternalServerError => seq![
                'I' as u8, 'n' as u8, 't' as u8, 'e' as u8, 'r' as u8, 'n' as u8,
                'a' as u8, 'l' as u8, ' ' as u8, 'S' as u8, 'e' as u8, 'r' as u8,
                'v' as u8, 'e' as u8, 'r' as u8, ' ' as u8, 'E' as u8, 'r' as u8,
                'r' as u8, 'o' as u8, 'r' as u8,
            ],
            StatusCode::HttpVersionNotSupported => seq![
                'H' as u8, 'T' as u8, 'T' as u8, 'P' as u8, ' ' as u8, 'V' as u8,
                'e' as u8, 'r' as u8, 's' as u8, 'i' as u8, 'o' as u8, 'n' as u8,
                ' ' as u8, 'n' as u8, 'o' as u8, 't' as u8, ' ' as u8, 'S' as u8,
                'u' as u8, 'p' as u8, 'p' as u8, 'o' as u8, 'r' as u8, 't' as u8,
                'e' as u8, 'd' as u8,
            ],
        }
    }

    /// Reason phrase corresponding to each status code.
    pub fn reason_phrase(&self) -> (r: Vec<u8>)
        ensures
            r@ == self.phrase_spec(),
    {
        let mut v: Vec<u8> = Vec::new();
        match self {
            StatusCode::OK => {
                v.push('O' as u8);
                v.push('K' as u8);
            },
            StatusCode::MovedPermanently => {
                v.push('M' as u8);
                v.push('o' as u8);
                v.push('v' as u8);
                v.push('e' as u8);
                v.push('d' as u8);
                v.push(' ' as u8);
                v.push('P' as u8);
                v.push('e' as u8);
                v.push('r' as u8);
                v.push('m' as u8);
                v.push('a' as u8);
                v.push('n' as u8);
                v.push('e' as u8);
                v.push('n' as u8);
                v.push('t' as u8);
                v.push('l' as u8);
                v.push('y' as u8);
            },
            StatusCode::Found => {
                v.push('F' as u8);
                v.push('o' as u8);
                v.push('u' as u8);
                v.push('n' as u8);
                v.push('d' as u8);
            },
            StatusCode::SeeOther => {
                v.push('S' as u8);
                v.push('e' as u8);
                v.push('e' as u8);
                v.push(' ' as u8);
                v.push('O' as u8);
                v.push('t' as u8);
                v.push('h' as u8);
                v.push('e' as u8);
                v.push('r' as u8);
            },
            StatusCode::BadRequest => {
                v.push('B' as u8);
                v.push('a' as u8);
                v.push('d' as u8);
                v.push(' ' as u8);
                v.push('R' as u8);
                v.push('e' as u8);
                v.push('q' as u8);
                v.push('u' as u8);
                v.push('e' as u8);
                v.push('s' as u8);
                v.push('t' as u8);
            },
            StatusCode::Unauthorized => {
                v.push('U' as u8);
                v.push('n' as u8);
                v.push('a' as u8);
                v.push('u' as u8);
                v.push('t' as u8);
                v.push('h' as u8);
                v.push('o' as u8);
                v.push('r' as u8);
                v.push('i' as u8);
                v.push('z' as u8);
                v.push('e' as u8);
                v.push('d' as u8);
            },
            StatusCode::Forbidden => {
                v.push('F' as u8);
                v.push('o' as u8);
                v.push('r' as u8);
                v.push('b' as u8);
                v.push('i' as u8);
                v.push('d' as u8);
                v.push('d' as u8);
                v.push('e' as u8);
                v.push('n' as u8);
            },
            StatusCode::NotFound => {
                v.push('N' as u8);
                v.push('o' as u8);
                v.push('t' as u8);
                v.push(' ' as u8);
                v.push('F' as u8);
                v.push('o' as u8);
                v.push('u' as u8);
                v.push('n' as u8);
                v.push('d' as u8);
            },
            StatusCode::MethodNotAllowed => {
                v.push('M' as u8);
                v.push('e' as u8);
                v.push('t' as u8);
                v.push('h' as u8);
                v.push('o' as u8);
                v.push('d' as u8);
                v.push(' ' as u8);
                v.push('N' as u8);
                v.push('o' as u8);
                v.push('t' as u8);
                v.push(' ' as u8);
                v.push('A' as u8);
                v.push('l' as u8);
                v.push('l' as u8);
                v.push('o' as u8);
                v.push('w' as u8);
                v.push('e' as u8);
                v.push('d' as u8);
            },
            StatusCode::LengthRequired => {
                v.push('L' as u8);
                v.push('e' as u8);
                v.push('n' as u8);
                v.push('g' as u8);
                v.push('t' as u8);
                v.push('h' as u8);
                v.push(' ' as u8);
                v.push('R' as u8);
                v.push('e' as u8);
                v.push('q' as u8);
                v.push('u' as u8);
                v.push('i' as u8);
                v.push('r' as u8);
                v.push('e' as u8);
                v.push('d' as u8);
            },
            StatusCode::IMATeapot => {
                v.push('I' as u8);
                v.push('\'' as u8);
                v.push('m' as u8);
                v.push(' ' as u8);
                v.push('a' as u8);
                v.push(' ' as u8);
                v.push('t' as u8);
                v.push('e' as u8);
                v.push('a' as u8);
                v.push('p' as u8);
                v.push('o' as u8);
                v.push('t' as u8);
            },
            StatusCode::InternalServerError => {
                v.push('I' as u8);
                v.push('n' as u8);
                v.push('t' as u8);
                v.push('e' as u8);
                v.push('r' as u8);
                v.push('n' as u8);
                v.push('a' as u8);
                v.push('l' as u8);
                v.push(' ' as u8);
                v.push('S' as u8);
                v.push('e' as u8);
                v.push('r' as u8);
                v.push('v' as u8);
                v.push('e' as u8);
                v.push('r' as u8);
                v.push(' ' as u8);
                v.push('E' as u8);
                v.push('r' as u8);
                v.push('r' as u8);
                v.push('o' as u8);
                v.push('r' as u8);
            },
            StatusCode::HttpVersionNotSupported => {
                v.push('H' as u8);
                v.push('T' as u8);
                v.push('T' as u8);
                v.push('P' as u8);
                v.push(' ' as u8);
                v.push('V' as u8);
                v.push('e' as u8);
                v.push('r' as u8);
                v.push('s' as u8);
                v.push('i' as u8);
                v.push('o' as u8);
                v.push('n' as u8);
                v.push(' ' as u8);
                v.push('n' as u8);
                v.push('o' as u8);
                v.push('t' as u8);
                v.push(' ' as u8);
                v.push('S' as u8);
                v.push('u' as u8);
                v.push('p' as u8);
                v.push('p' as u8);
                v.push('o' as u8);
                v.push('r' as u8);
                v.push('t' as u8);
                v.push('e' as u8);
                v.push('d' as u8);
            },
        }
        assert(v@ =~= self.phrase_spec());
        v
    }

    /// The three ASCII digits of the status code.
    pub open spec fn digits_spec(self) -> Seq<u8> {
        let c = self.code_spec();
        seq![(48 + c / 100) as u8, (48 + c / 10 % 10) as u8, (48 + c % 10) as u8]
    }

    /// Convert status code into 3 bytes of ASCII.
    pub fn as_bytes(&self) -> (r: Vec<u8>)
        ensures
            r@ == self.digits_spec(),
    {
        let code = self.code();
        let mut v: Vec<u8> = Vec::new();
        v.push(48 + (code / 100) as u8);
        v.push(48 + (code / 10 % 10) as u8);
        v.push(48 + (code % 10) as u8);
        assert(v@ =~= self.digits_spec());
        v
    }
}

impl Default for StatusCode {
    fn default() -> (r: Self)
        ensures
            r == StatusCode::OK,
    {
        StatusCode::OK
    }
}

} // verus!
