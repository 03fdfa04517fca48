//! How one device is reached: host, port and identity file.

use vstd::prelude::*;
use vstd::string::StrSliceExecFns;
use crate::error::ConfigField;
use crate::error::DutError;
use crate::error::DutErrorView;
use crate::text::chars_of;
use crate::text::char_is_space;
use crate::text::decimal_value;
use crate::text::first_index_of;
use crate::text::is_decimal_u16;
use crate::text::is_space;
use crate::text::lemma_first_index_of;
use crate::text::parse_u16;

verus! {

/// The port that a target string without a port part stands for.
pub const DEFAULT_PORT: u16 = 22;

/// What is needed to reach one device now.
#[derive(Debug, PartialEq, Eq)]
pub struct ConnectionDescriptor {
    host: String,
    port: u16,
    identity_file: String,
}

/// A [`ConnectionDescriptor`] as mathematical values.
pub struct DescriptorView {
    pub host: Seq<char>,
    pub port: u16,
    pub identity_file: Seq<char>,
}

impl View for ConnectionDescriptor {
    type V = DescriptorView;

    closed spec fn view(&self) -> DescriptorView {
        DescriptorView {
            host: self.host@,
            port: self.port,
            identity_file: self.identity_file@,
        }
    }
}

impl Clone for ConnectionDescriptor {
    fn clone(&self) -> (r: Self)
        ensures
            r == *self,
    {
        ConnectionDescriptor {
            host: self.host.clone(),
            port: self.port,
            identity_file: self.identity_file.clone(),
        }
    }
}

/// Whether `h` can stand as the host part of a target: it is not empty and
/// holds no whitespace.
pub open spec fn valid_host(h: Seq<char>) -> bool {
    h.len() > 0 && forall|i: int| 0 <= i < h.len() ==> !is_space(#[trigger] h[i])
}

/// The part of a target string before its first colon.
pub open spec fn host_part(raw: Seq<char>) -> Seq<char> {
    raw.take(first_index_of(raw, ':') as int)
}

/// Whether a target string holds a colon, and so a port part.
pub open spec fn has_port_part(raw: Seq<char>) -> bool {
    first_index_of(raw, ':') < raw.len()
}

/// The part of a target string after its first colon.
pub open spec fn port_part(raw: Seq<char>) -> Seq<char> {
    raw.skip(first_index_of(raw, ':') as int + 1)
}

/// What a target string of the form `host[:port]` denotes: the host and the
/// port, or the part that is malformed.
pub open spec fn parsed_target(raw: Seq<char>) -> Result<(Seq<char>, u16), ConfigField> {
    if !valid_host(host_part(raw)) {
        Err(ConfigField::Host)
    } else if !has_port_part(raw) {
        Ok((raw, DEFAULT_PORT))
    } else if is_decimal_u16(port_part(raw)) {
        Ok((host_part(raw), decimal_value(port_part(raw)) as u16))
    } else {
        Err(ConfigField::Port)
    }
}

impl ConnectionDescriptor {
    /// A descriptor of the given parts.
    pub fn new(host: &str, port: u16, identity_file: &str) -> (r: Self)
        ensures
            r@ == (DescriptorView { host: host@, port, identity_file: identity_file@ }),
    {
        ConnectionDescriptor {
            host: host.to_owned(),
            port,
            identity_file: identity_file.to_owned(),
        }
    }

    /// Reads a target string of the form `host[:port]`. The identity file is
    /// not part of the string and is taken as given.
    pub fn parse(raw: &str, identity_file: &str) -> (r: Result<Self, DutError>)
        ensures
            match parsed_target(raw@) {
                Ok((host, port)) => r is Ok && r.unwrap()@ == (DescriptorView {
                    host,
                    port,
                    identity_file: identity_file@,
                }),
                Err(field) => r is Err && r.unwrap_err()@ == DutErrorView::Configuration(field),
            },
    {
        let v = chars_of(raw);
        let n = v.len();
        let mut colon: usize = 0;
        let mut clean: bool = true;
        while colon < n && v[colon] != ':'
            invariant
                colon <= n == v.len(),
                forall|j: int| 0 <= j < colon ==> v@[j] != ':',
                clean <==> forall|j: int| 0 <= j < colon ==> !is_space(#[trigger] v@[j]),
            decreases n - colon,
        {
            if char_is_space(v[colon]) {
                clean = false;
            }
            colon = colon + 1;
        }
        proof {
            lemma_first_index_of(v@, ':', colon as int);
        }
        if colon == 0 || !clean {
            proof {
                if colon > 0 {
                    let j = choose|j: int| 0 <= j < colon && is_space(#[trigger] v@[j]);
                    assert(host_part(raw@)[j] == v@[j]);
                }
            }
            return Err(DutError::Configuration(ConfigField::Host));
        }
        if colon == n {
            proof {
                assert(v@.take(n as int) =~= v@);
            }
            return Ok(ConnectionDescriptor::new(raw, DEFAULT_PORT, identity_file));
        }
        proof {
            assert(v@.skip(colon + 1) =~= v@.subrange(colon + 1, n as int));
            assert(v@.take(colon as int) =~= v@.subrange(0, colon as int));
        }
        match parse_u16(&v, colon + 1, n) {
            Some(port) => Ok(
                ConnectionDescriptor::new(raw.substring_char(0, colon), port, identity_file),
            ),
            None => Err(DutError::Configuration(ConfigField::Port)),
        }
    }

    /// The host name or address.
    pub fn host(&self) -> (r: &str)
        ensures
            r@ == self@.host,
    {
        self.host.as_str()
    }

    /// The port.
    pub fn port(&self) -> (r: u16)
        ensures
            r == self@.port,
    {
        self.port
    }

    /// The path of the identity file.
    pub fn identity_file(&self) -> (r: &str)
        ensures
            r@ == self@.identity_file,
    {
        self.identity_file.as_str()
    }

    /// Whether `self` and `other` agree in every field.
    pub fn same_as(&self, other: &ConnectionDescriptor) -> (r: bool)
        ensures
            r == (self@ == other@),
    {
        self.host == other.host && self.port == other.port && self.identity_file
            == other.identity_file
    }
}

} // verus!
