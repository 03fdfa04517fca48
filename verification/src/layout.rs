//! The lines that the listings are made of.

use vstd::prelude::*;
use vstd::string::StrSliceExecFns;
use vstd::string::StringExecFns;
use crate::error::texts;
use crate::error::ConfigField;
use crate::error::DutError;
use crate::error::DutErrorView;
use crate::reconcile::FleetStatus;

verus! {

/// The width to which an identity is padded in a listing.
pub const IDENTITY_WIDTH: usize = 32;

/// The width to which a status is padded in a listing.
pub const STATUS_WIDTH: usize = 13;

/// The words, with the separator between each two neighbours.
pub open spec fn joined(words: Seq<Seq<char>>, separator: Seq<char>) -> Seq<char>
    decreases words.len(),
{
    if words.len() == 0 {
        Seq::empty()
    } else if words.len() == 1 {
        words[0]
    } else {
        joined(words.drop_last(), separator) + separator + words.last()
    }
}

/// `n` spaces.
pub open spec fn spaces(n: nat) -> Seq<char> {
    Seq::new(n, |i: int| ' ')
}

/// `text`, followed by as many spaces as it is shorter than `width`.
pub open spec fn padded(text: Seq<char>, width: nat) -> Seq<char> {
    if text.len() >= width {
        text
    } else {
        text + spaces((width - text.len()) as nat)
    }
}

/// The word that stands for a status in a listing.
pub open spec fn status_name(status: FleetStatus) -> Seq<char> {
    match status {
        FleetStatus::Online => "Online"@,
        FleetStatus::Offline => "Offline"@,
        FleetStatus::AddressReused => "AddressReused"@,
    }
}

/// The line of one entry: the identity in a column, then the detail.
pub open spec fn entry_line(identity: Seq<char>, detail: Seq<char>) -> Seq<char> {
    padded(identity, IDENTITY_WIDTH as nat) + seq![' '] + detail
}

/// The line of one checked entry: the identity and the status in columns,
/// then the detail.
pub open spec fn checked_line(identity: Seq<char>, status: FleetStatus, detail: Seq<char>) -> Seq<
    char,
> {
    padded(identity, IDENTITY_WIDTH as nat) + seq![' '] + padded(
        status_name(status),
        STATUS_WIDTH as nat,
    ) + seq![' '] + detail
}

/// Joins the words with the separator.
pub fn join(words: &Vec<String>, separator: &str) -> (r: String)
    ensures
        r@ == joined(texts(words@), separator@),
{
    let mut r = String::new();
    let mut i: usize = 0;
    proof {
        assert(texts(words@).take(0) =~= Seq::<Seq<char>>::empty());
    }
    while i < words.len()
        invariant
            i <= words.len(),
            r@ == joined(texts(words@).take(i as int), separator@),
        decreases words.len() - i,
    {
        proof {
            let upto = texts(words@).take(i + 1);
            assert(upto.drop_last() =~= texts(words@).take(i as int));
            assert(upto.last() == words@[i as int]@);
            if i == 0 {
                assert(Seq::<char>::empty() + words@[i as int]@ =~= words@[i as int]@);
            }
        }
        if i > 0 {
            r.append(separator);
        }
        r.append(words[i].as_str());
        i = i + 1;
    }
    proof {
        assert(texts(words@).take(i as int) =~= texts(words@));
    }
    r
}

/// Pads `text` with spaces on the right up to `width` characters.
pub fn pad(text: &str, width: usize) -> (r: String)
    ensures
        r@ == padded(text@, width as nat),
{
    let mut r = text.to_owned();
    let have = text.unicode_len();
    if have >= width {
        return r;
    }
    let mut n: usize = have;
    proof {
        assert(text@ + spaces(0) =~= text@);
    }
    while n < width
        invariant
            have <= n <= width,
            have == text@.len(),
            r@ == text@ + spaces((n - have) as nat),
        decreases width - n,
    {
        proof {
            reveal_strlit(" ");
            assert(" "@ =~= seq![' ']);
            assert(text@ + spaces((n - have) as nat) + seq![' '] =~= text@ + spaces(
                (n + 1 - have) as nat,
            ));
        }
        r.append(" ");
        n = n + 1;
    }
    r
}

/// The word that stands for `status` in a listing.
pub fn status_word(status: FleetStatus) -> (r: &'static str)
    ensures
        r@ == status_name(status),
{
    match status {
        FleetStatus::Online => "Online",
        FleetStatus::Offline => "Offline",
        FleetStatus::AddressReused => "AddressReused",
    }
}

/// The line that lists one entry.
pub fn format_entry(identity: &str, detail: &str) -> (r: String)
    ensures
        r@ == entry_line(identity@, detail@),
{
    let mut r = pad(identity, IDENTITY_WIDTH);
    proof {
        reveal_strlit(" ");
        assert(" "@ =~= seq![' ']);
    }
    r.append(" ");
    r.append(detail);
    r
}

/// The line that lists one checked entry.
pub fn format_checked(identity: &str, status: FleetStatus, detail: &str) -> (r: String)
    ensures
        r@ == checked_line(identity@, status, detail@),
{
    let mut r = pad(identity, IDENTITY_WIDTH);
    let word = pad(status_word(status), STATUS_WIDTH);
    proof {
        reveal_strlit(" ");
        assert(" "@ =~= seq![' ']);
    }
    r.append(" ");
    r.append(word.as_str());
    r.append(" ");
    r.append(detail);
    r
}

/// The text that std's `Debug` formatting gives for a string: the string as
/// a literal, with the characters that cannot stand in one written as
/// escapes. Nothing more is said of it here.
pub uninterp spec fn quoted(text: Seq<char>) -> Seq<char>;

/// Calls std's `Debug` formatting on `text`, as `{:?}` does. Its result is
/// the text named [`quoted`].
#[verifier::external_body]
fn quote(text: &str) -> (r: String)
    ensures
        r@ == quoted(text@),
{
    format!("{:?}", text)
}

/// Each name as a literal.
pub open spec fn quote_each() -> spec_fn(Seq<char>) -> Seq<char> {
    |name: Seq<char>| quoted(name)
}

/// The names as a list: each as a literal, a comma and a space between
/// two neighbours, the whole in square brackets.
pub open spec fn quoted_list(names: Seq<Seq<char>>) -> Seq<char> {
    seq!['['] + joined(names.map_values(quote_each()), ", "@) + seq![']']
}

/// Writes the names as a list of literals.
pub fn format_names(names: &Vec<String>) -> (r: String)
    ensures
        r@ == quoted_list(texts(names@)),
{
    let mut literals: Vec<String> = Vec::new();
    let mut i: usize = 0;
    while i < names.len()
        invariant
            i <= names.len(),
            literals@.len() == i,
            forall|k: int| 0 <= k < i ==> (#[trigger] literals@[k])@ == quoted(names@[k]@),
        decreases names.len() - i,
    {
        literals.push(quote(names[i].as_str()));
        i = i + 1;
    }
    proof {
        assert(texts(literals@) =~= texts(names@).map_values(quote_each()));
        reveal_strlit("[");
        reveal_strlit("]");
        assert("["@ =~= seq!['[']);
        assert("]"@ =~= seq![']']);
    }
    let mut r = concat("[", join(&literals, ", ").as_str());
    r.append("]");
    r
}

/// What is said of a malformed or missing part of a request.
pub open spec fn field_message(field: ConfigField) -> Seq<char> {
    match field {
        ConfigField::Host => "Malformed target: host"@,
        ConfigField::Port => "Malformed target: port"@,
        ConfigField::Target => "Please specify --dut"@,
        ConfigField::MonitorPorts => "Too many DUTs to monitor"@,
    }
}

/// What is said of a failure. Unknown actions are named together, and a
/// malformed target is described by the part that is malformed.
pub open spec fn description(error: DutErrorView) -> Seq<char> {
    match error {
        DutErrorView::Connectivity(host) => "Failed to connect to "@ + host,
        DutErrorView::Authentication(host) => "Authentication rejected by "@ + host,
        DutErrorView::Resolution(name) => "Remote query failed: "@ + name,
        DutErrorView::UnknownIdentifier(identity) => "Unknown DUT: "@ + identity,
        DutErrorView::InvalidAction(names) => "Unknown action: "@ + quoted_list(names)
            + ". See `lium dut do --list-actions` for available actions."@,
        DutErrorView::Configuration(field) => field_message(field),
        DutErrorView::StoreUninitialized => "The DUT registry is not initialized yet"@,
        DutErrorView::Encoding => "Failed to encode the report"@,
    }
}

/// `head` followed by `tail`.
fn concat(head: &str, tail: &str) -> (r: String)
    ensures
        r@ == head@ + tail@,
{
    let mut r = head.to_owned();
    r.append(tail);
    r
}

impl DutError {
    /// The message that tells the user of this failure.
    pub fn describe(&self) -> (r: String)
        ensures
            r@ == description(self@),
    {
        match self {
            DutError::Connectivity(host) => concat("Failed to connect to ", host.as_str()),
            DutError::Authentication(host) => concat(
                "Authentication rejected by ",
                host.as_str(),
            ),
            DutError::Resolution(name) => concat("Remote query failed: ", name.as_str()),
            DutError::UnknownIdentifier(identity) => concat("Unknown DUT: ", identity.as_str()),
            DutError::InvalidAction(names) => {
                let mut r = concat("Unknown action: ", format_names(names).as_str());
                r.append(". See `lium dut do --list-actions` for available actions.");
                r
            },
            DutError::Configuration(field) => match field {
                ConfigField::Host => "Malformed target: host".to_owned(),
                ConfigField::Port => "Malformed target: port".to_owned(),
                ConfigField::Target => "Please specify --dut".to_owned(),
                ConfigField::MonitorPorts => "Too many DUTs to monitor".to_owned(),
            },
            DutError::StoreUninitialized => "The DUT registry is not initialized yet".to_owned(),
            DutError::Encoding => "Failed to encode the report".to_owned(),
        }
    }
}

} // verus!
