use vstd::prelude::*;
use vstd::string::StringSliceAdditionalSpecFns;

verus! {

/// Address the listening socket binds to when none is given.
pub const DEFAULT_BIND_ADDR: &'static str = "127.0.0.1";

/// Largest value a port can take.
pub const MAX_PORT: u64 = 65535;

/// The ASCII digit byte `c`.
pub open spec fn is_digit(c: u8) -> bool {
    48 <= c <= 57
}

/// The number that the ASCII digits `b` spell in decimal.
pub open spec fn decimal_value(b: Seq<u8>) -> nat
    decreases b.len(),
{
    if b.len() == 0 {
        0
    } else {
        10 * decimal_value(b.drop_last()) + (b.last() - 48) as nat
    }
}

/// The digits of a port's text: what follows an optional leading `+`.
pub open spec fn port_digits(b: Seq<u8>) -> Seq<u8> {
    if b.len() > 0 && b[0] == 43 {
        b.drop_first()
    } else {
        b
    }
}

/// `b` is the text of a port: an optional `+`, then one or more decimal digits
/// whose value is at most `MAX_PORT`.
pub open spec fn is_port_text(b: Seq<u8>) -> bool {
    let d = port_digits(b);
    &&& d.len() > 0
    &&& forall|i: int| 0 <= i < d.len() ==> is_digit(#[trigger] d[i])
    &&& decimal_value(d) <= MAX_PORT
}

proof fn lemma_value_grows(b: Seq<u8>, i: int)
    requires
        0 <= i <= b.len(),
        forall|j: int| 0 <= j < b.len() ==> is_digit(#[trigger] b[j]),
    ensures
        decimal_value(b.take(i)) <= decimal_value(b),
    decreases b.len() - i,
{
    if i < b.len() {
        lemma_value_grows(b, i + 1);
        assert(b.take(i + 1).drop_last() =~= b.take(i));
    } else {
        assert(b.take(i) =~= b);
    }
}

/// Reads a port number from its decimal text, as in a command line; `None`
/// where the text is not a port.
pub fn parse_port(s: &str) -> (r: Option<u16>)
    ensures
        r is Some == is_port_text(s.spec_bytes()),
        r matches Some(p) ==> p as nat == decimal_value(port_digits(s.spec_bytes())),
{
    let b = s.as_bytes();
    let start: usize = if b.len() > 0 && b[0] == 43u8 { 1 } else { 0 };
    let ghost d = port_digits(b@);
    assert(d =~= b@.subrange(start as int, b@.len() as int));
    if start >= b.len() {
        return None;
    }
    let mut v: u64 = 0;
    let mut i: usize = start;
    while i < b.len()
        invariant
            start <= i <= b@.len(),
            d == b@.subrange(start as int, b@.len() as int),
            d == port_digits(s.spec_bytes()),
            forall|j: int| 0 <= j < i - start ==> is_digit(#[trigger] d[j]),
            v as nat == decimal_value(d.take(i - start)),
            v <= MAX_PORT,
        decreases b@.len() - i,
    {
        let c = b[i];
        assert(d[i - start] == c);
        if c < 48u8 || c > 57u8 {
            assert(!is_digit(d[i - start]));
            return None;
        }
        assert(d.take(i + 1 - start).drop_last() =~= d.take(i - start));
        let next: u64 = v * 10 + (c - 48u8) as u64;
        i = i + 1;
        assert(d.take(i - start).last() == c);
        assert(next as nat == decimal_value(d.take(i - start)));
        if next > MAX_PORT {
            proof {
                if forall|j: int| 0 <= j < d.len() ==> is_digit(#[trigger] d[j]) {
                    lemma_value_grows(d, i - start);
                }
            }
            return None;
        }
        v = next;
    }
    assert(d.take(i - start) =~= d);
    Some(v as u16)
}

/// The relay's settings, as plain values.
#[derive(Debug)]
pub struct Config {
    /// Address the listening socket binds to.
    pub bind_addr: String,
    /// Port the listening socket binds to.
    pub local_port: u16,
    /// Host of the remote endpoint every session forwards to.
    pub remote_host: String,
    /// Port of the remote endpoint.
    pub remote_port: u16,
    /// Whether tracing is printed; it changes nothing else.
    pub debug: bool,
}

/// Why the settings could not be taken.
#[derive(PartialEq, Eq, Structural, Clone, Copy, Debug)]
pub enum ConfigError {
    /// The local port is not the text of a port.
    BadLocalPort,
    /// The remote port is not the text of a port.
    BadRemotePort,
}

impl Config {
    /// Builds the settings from the option values: the bind address defaults
    /// to `DEFAULT_BIND_ADDR`, and both ports must be the text of a port.
    pub fn from_options(
        bind_addr: Option<String>,
        local_port: &str,
        remote_host: String,
        remote_port: &str,
        debug: bool,
    ) -> (r: Result<Config, ConfigError>)
        ensures
            !is_port_text(local_port.spec_bytes()) ==> r == Err::<Config, ConfigError>(
                ConfigError::BadLocalPort,
            ),
            is_port_text(local_port.spec_bytes()) && !is_port_text(remote_port.spec_bytes())
                ==> r == Err::<Config, ConfigError>(ConfigError::BadRemotePort),
            is_port_text(local_port.spec_bytes()) && is_port_text(remote_port.spec_bytes())
                ==> r is Ok,
            r matches Ok(c) ==> {
                &&& c.local_port as nat == decimal_value(port_digits(local_port.spec_bytes()))
                &&& c.remote_port as nat == decimal_value(port_digits(remote_port.spec_bytes()))
                &&& c.remote_host@ == remote_host@
                &&& c.debug == debug
                &&& match bind_addr {
                    Some(a) => c.bind_addr@ == a@,
                    None => c.bind_addr@ == DEFAULT_BIND_ADDR@,
                }
            },
    {
        let local = match parse_port(local_port) {
            Some(p) => p,
            None => return Err(ConfigError::BadLocalPort),
        };
        let remote = match parse_port(remote_port) {
            Some(p) => p,
            None => return Err(ConfigError::BadRemotePort),
        };
        let bind = match bind_addr {
            Some(a) => a,
            None => DEFAULT_BIND_ADDR.to_owned(),
        };
        Ok(Config { bind_addr: bind, local_port: local, remote_host, remote_port: remote, debug })
    }
}

} // verus!
