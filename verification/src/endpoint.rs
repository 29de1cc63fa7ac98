//! Where a connection goes to: the socket address that a stream's address stands for.
use tokio_tungstenite::tungstenite::client::IntoClientRequest;
use vstd::prelude::*;
use vstd::string::StringExecFns;

verus! {

/// What `into_client_request` makes of an address: the host and the port that the URI of the
/// request names, or the words in which it refuses the address.
pub uninterp spec fn url_parts(url: Seq<char>) -> Result<
    (Option<Seq<char>>, Option<u16>),
    Seq<char>,
>;

/// A host, if there is one, as a text.
pub open spec fn host_text(host: Option<String>) -> Option<Seq<char>> {
    match host {
        Some(h) => Some(h@),
        None => None,
    }
}

/// `IntoClientRequest::into_client_request` makes the request for an address, or refuses the
/// address. All that is claimed is that the host and the port of the request's URI, and the
/// words of a refusal, depend on the address alone. The key of the request, which is random,
/// is not handed on.
#[verifier::external_body]
fn request_parts(url: &str) -> (parts: Result<(Option<String>, Option<u16>), String>)
    ensures
        match parts {
            Ok((host, port)) => url_parts(url@) == Ok::<_, Seq<char>>((host_text(host), port)),
            Err(e) => url_parts(url@) == Err::<(Option<Seq<char>>, Option<u16>), _>(e@),
        },
{
    match url.into_client_request() {
        Ok(request) => Ok((request.uri().host().map(String::from), request.uri().port_u16())),
        Err(e) => Err(e.to_string()),
    }
}

/// Why a connection could not be made.
#[derive(Debug)]
pub enum ConnectError {
    /// The address was refused.
    Url(String),
    /// The address names no host.
    NoHost,
    /// The host could not be looked up.
    Dns(String),
    /// The host has no IP address.
    NoIp,
    /// No socket was to be had.
    Socket(String),
    /// The socket could not be connected.
    Tcp(String),
    /// The TLS or the websocket handshake failed.
    Handshake(String),
}

/// What a `ConnectError` says.
pub enum ConnectErrorView {
    Url(Seq<char>),
    NoHost,
    Dns(Seq<char>),
    NoIp,
    Socket(Seq<char>),
    Tcp(Seq<char>),
    Handshake(Seq<char>),
}

impl View for ConnectError {
    type V = ConnectErrorView;

    open spec fn view(&self) -> ConnectErrorView {
        match *self {
            ConnectError::Url(e) => ConnectErrorView::Url(e@),
            ConnectError::NoHost => ConnectErrorView::NoHost,
            ConnectError::Dns(e) => ConnectErrorView::Dns(e@),
            ConnectError::NoIp => ConnectErrorView::NoIp,
            ConnectError::Socket(e) => ConnectErrorView::Socket(e@),
            ConnectError::Tcp(e) => ConnectErrorView::Tcp(e@),
            ConnectError::Handshake(e) => ConnectErrorView::Handshake(e@),
        }
    }
}

impl ConnectErrorView {
    /// The error in words.
    pub open spec fn text(self) -> Seq<char> {
        match self {
            ConnectErrorView::Url(e) => "Ошибка URL: "@ + e,
            ConnectErrorView::NoHost => "Нет host"@,
            ConnectErrorView::Dns(e) => "DNS: "@ + e,
            ConnectErrorView::NoIp => "Нет IP"@,
            ConnectErrorView::Socket(e) => "Socket: "@ + e,
            ConnectErrorView::Tcp(e) => "TCP Connect: "@ + e,
            ConnectErrorView::Handshake(e) => "TLS/WS: "@ + e,
        }
    }
}

impl ConnectError {
    /// The error in words.
    pub fn text(&self) -> (text: String)
        ensures
            text@ == self@.text(),
    {
        match self {
            ConnectError::Url(e) => "Ошибка URL: ".to_owned().concat(e.as_str()),
            ConnectError::NoHost => "Нет host".to_owned(),
            ConnectError::Dns(e) => "DNS: ".to_owned().concat(e.as_str()),
            ConnectError::NoIp => "Нет IP".to_owned(),
            ConnectError::Socket(e) => "Socket: ".to_owned().concat(e.as_str()),
            ConnectError::Tcp(e) => "TCP Connect: ".to_owned().concat(e.as_str()),
            ConnectError::Handshake(e) => "TLS/WS: ".to_owned().concat(e.as_str()),
        }
    }
}

/// The port of an address that names none.
pub const DEFAULT_PORT: u16 = 443;

/// The character of a digit.
pub open spec fn digit_char(d: int) -> char {
    (d + 48) as char
}

/// A number in decimal digits.
pub open spec fn decimal(n: nat) -> Seq<char>
    decreases n,
{
    if n < 10 {
        seq![digit_char(n as int)]
    } else {
        decimal(n / 10).push(digit_char((n % 10) as int))
    }
}

/// The socket address of a host, if there is one, and a port.
pub open spec fn address_of(host: Option<Seq<char>>, port: Option<u16>) -> Option<Seq<char>> {
    match host {
        Some(h) => Some(
            h + ":"@ + decimal(
                match port {
                    Some(p) => p as nat,
                    None => DEFAULT_PORT as nat,
                },
            ),
        ),
        None => None,
    }
}

/// A number in decimal digits.
fn decimal_text(n: u16) -> (text: String)
    ensures
        text@ == decimal(n as nat),
    decreases n,
{
    let digit = match n % 10 {
        0 => "0",
        1 => "1",
        2 => "2",
        3 => "3",
        4 => "4",
        5 => "5",
        6 => "6",
        7 => "7",
        8 => "8",
        _ => "9",
    };
    proof {
        reveal_strlit("0");
        reveal_strlit("1");
        reveal_strlit("2");
        reveal_strlit("3");
        reveal_strlit("4");
        reveal_strlit("5");
        reveal_strlit("6");
        reveal_strlit("7");
        reveal_strlit("8");
        reveal_strlit("9");
        assert(digit@ =~= seq![digit_char((n % 10) as int)]);
    }
    if n < 10 {
        digit.to_owned()
    } else {
        let text = decimal_text(n / 10).concat(digit);
        assert(text@ =~= decimal(n as nat));
        text
    }
}

/// The socket address of a host and a port: an address without a host is an error, and one
/// without a port means `DEFAULT_PORT`.
pub fn socket_address(host: Option<String>, port: Option<u16>) -> (address: Result<
    String,
    ConnectError,
>)
    ensures
        match address_of(host_text(host), port) {
            Some(text) => address matches Ok(a) && a@ == text,
            None => address matches Err(e) && e@ == ConnectErrorView::NoHost,
        },
{
    match host {
        Some(h) => {
            let p: u16 = match port {
                Some(p) => p,
                None => DEFAULT_PORT,
            };
            Ok(h.concat(":").concat(decimal_text(p).as_str()))
        },
        None => Err(ConnectError::NoHost),
    }
}

/// The socket address to connect to for a stream's address.
pub fn connect_target(url: &str) -> (address: Result<String, ConnectError>)
    ensures
        match url_parts(url@) {
            Err(words) => address matches Err(e) && e@ == ConnectErrorView::Url(words),
            Ok((host, port)) => match address_of(host, port) {
                None => address matches Err(e) && e@ == ConnectErrorView::NoHost,
                Some(text) => address matches Ok(a) && a@ == text,
            },
        },
{
    match request_parts(url) {
        Ok((host, port)) => socket_address(host, port),
        Err(e) => Err(ConnectError::Url(e)),
    }
}

/// The number that a text of decimal digits stands for.
pub open spec fn number_of(digits: Seq<char>) -> int
    decreases digits.len(),
{
    if digits.len() == 0 {
        0
    } else {
        10 * number_of(digits.drop_last()) + (digits.last() as int - '0' as int)
    }
}

/// A number in decimal digits is made of digits, stands for the number, and has no zero in
/// front.
pub proof fn law_digits_stand_for_the_number(n: nat)
    ensures
        decimal(n).len() > 0,
        forall|i: int| 0 <= i < decimal(n).len() ==> '0' <= #[trigger] decimal(n)[i] <= '9',
        number_of(decimal(n)) == n,
        decimal(n).len() > 1 ==> decimal(n)[0] != '0',
    decreases n,
{
    if n < 10 {
        assert(decimal(n).drop_last() =~= Seq::empty());
        assert(number_of(decimal(n).drop_last()) == 0);
    } else {
        let before = decimal(n / 10);
        law_digits_stand_for_the_number(n / 10);
        assert(decimal(n).drop_last() =~= before);
        assert forall|i: int| 0 <= i < decimal(n).len() implies '0' <= #[trigger] decimal(n)[i]
            <= '9' by {
            if i < before.len() {
                assert(decimal(n)[i] == before[i]);
            }
        }
        assert(decimal(n)[0] == before[0]);
        if before.len() == 1 {
            assert(before[0] != '0') by {
                assert(before.drop_last() =~= Seq::empty());
                assert(number_of(before.drop_last()) == 0);
                assert(number_of(before) == n / 10);
            }
        }
    }
}

/// The socket address is the host, a colon and the digits of the port, which is 443 where none
/// is named; without a host there is none.
pub proof fn law_address_is_host_and_port(host: Seq<char>, port: u16)
    ensures
        address_of(Some(host), Some(port)) == Some(host + seq![':'] + decimal(port as nat)),
        address_of(Some(host), None) == Some(host + seq![':', '4', '4', '3']),
        address_of(None, Some(port)) is None,
        address_of(None, None) is None,
{
    reveal_strlit(":");
    assert(":"@ =~= seq![':']);
    reveal_with_fuel(decimal, 4);
    assert(decimal(443) =~= seq!['4', '4', '3']);
    assert(host + ":"@ + decimal(443) =~= host + seq![':', '4', '4', '3']);
}

/// What an error of a connection says is what it holds, and its words are those of its kind, with
/// the words of the cause behind them.
pub proof fn law_words_of_connect_errors(error: ConnectError, host: Option<String>)
    ensures
        match error {
            ConnectError::Url(e) => error@.text() == "Ошибка URL: "@ + e@,
            ConnectError::NoHost => error@.text() == "Нет host"@,
            ConnectError::Dns(e) => error@.text() == "DNS: "@ + e@,
            ConnectError::NoIp => error@.text() == "Нет IP"@,
            ConnectError::Socket(e) => error@.text() == "Socket: "@ + e@,
            ConnectError::Tcp(e) => error@.text() == "TCP Connect: "@ + e@,
            ConnectError::Handshake(e) => error@.text() == "TLS/WS: "@ + e@,
        },
        error is Url <==> error@ is Url,
        error is NoHost <==> error@ is NoHost,
        error matches ConnectError::Url(e) ==> error@ == ConnectErrorView::Url(e@),
        match host {
            Some(h) => host_text(host) == Some(h@),
            None => host_text(host) is None,
        },
{
}

} // verus!
