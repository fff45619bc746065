//! Raw SmartFox values, their XML source and the settings update request.

use vstd::prelude::*;
use vstd::utf8::{valid_utf8, decode_utf8};
use vstd::std_specs::cmp::PartialEqSpecImpl;
use core::str::Utf8Error;
use quick_xml::Error as XmlError;
use quick_xml::events::attributes::AttrError;
use url::{ParseError, Url};
use crate::model::opt_chars;
use crate::xml::{XmlToken, TokenView, attribute_view, attribute_views, xml_token_at, open_reader, trim_text, read_token};
use crate::text::{push_char, chars_of, string_of, replace_all, replaced, trim, trimmed};

verus! {

/// The map that a list of key-value pairs describes; a later pair wins over an earlier one.
pub open spec fn pairs_map(s: Seq<(Seq<char>, Seq<char>)>) -> Map<Seq<char>, Seq<char>>
    decreases s.len(),
{
    if s.len() == 0 {
        Map::empty()
    } else {
        pairs_map(s.drop_last()).insert(s.last().0, s.last().1)
    }
}

/// The character view of a list of string pairs.
pub open spec fn pair_views(s: Seq<(String, String)>) -> Seq<(Seq<char>, Seq<char>)> {
    s.map_values(|p: (String, String)| (p.0@, p.1@))
}

/// The character view of a list of string slice pairs.
pub open spec fn str_pair_views(s: Seq<(&str, &str)>) -> Seq<(Seq<char>, Seq<char>)> {
    s.map_values(|p: (&str, &str)| (p.0@, p.1@))
}

/// A later pair wins: the map holds, under a key, the value of the last pair with that key.
pub proof fn lemma_pairs_map_last(s: Seq<(Seq<char>, Seq<char>)>, k: Seq<char>, j: int)
    requires
        0 <= j < s.len(),
        s[j].0 == k,
        forall|i: int| j < i < s.len() ==> (#[trigger] s[i]).0 != k,
    ensures
        pairs_map(s).dom().contains(k),
        pairs_map(s)[k] == s[j].1,
    decreases s.len(),
{
    if j < s.len() - 1 {
        lemma_pairs_map_last(s.drop_last(), k, j);
    }
}

/// The key of every pair is in the map.
proof fn lemma_pairs_map_last_any(s: Seq<(Seq<char>, Seq<char>)>, j: int)
    requires
        0 <= j < s.len(),
    ensures
        pairs_map(s).dom().contains(s[j].0),
    decreases s.len(),
{
    if j < s.len() - 1 {
        lemma_pairs_map_last_any(s.drop_last(), j);
        assert(s.drop_last()[j] == s[j]);
    }
}

/// A key that no pair has is not in the map.
pub proof fn lemma_pairs_map_absent(s: Seq<(Seq<char>, Seq<char>)>, k: Seq<char>)
    requires
        forall|i: int| 0 <= i < s.len() ==> (#[trigger] s[i]).0 != k,
    ensures
        !pairs_map(s).dom().contains(k),
    decreases s.len(),
{
    if s.len() > 0 {
        lemma_pairs_map_absent(s.drop_last(), k);
    }
}

/// Whether `other` holds under `k` what `m` holds there.
pub open spec fn holds_same(m: Map<Seq<char>, Seq<char>>, other: Map<Seq<char>, Seq<char>>, k: Seq<char>) -> bool {
    other.dom().contains(k) && other[k] == m[k]
}

/// Every key in the map is the key of some pair.
pub proof fn lemma_pairs_map_keys(s: Seq<(Seq<char>, Seq<char>)>, k: Seq<char>)
    requires
        pairs_map(s).dom().contains(k),
    ensures
        exists|j: int| 0 <= j < s.len() && (#[trigger] s[j]).0 == k,
    decreases s.len(),
{
    if s.last().0 != k {
        lemma_pairs_map_keys(s.drop_last(), k);
        let j = choose|j: int| 0 <= j < s.drop_last().len() && (#[trigger] s.drop_last()[j]).0 == k;
        assert(s[j] == s.drop_last()[j]);
    } else {
        assert(s[s.len() - 1].0 == k);
    }
}

/// Stores raw SmartFox values keyed by their XML identifier.
#[derive(Clone, Debug)]
pub struct SmartFoxValues {
    /// Key-value pairs in the order they were recorded; a later pair overrides an earlier one.
    /// A list rather than a `BTreeMap`: vstd's map specifications hold only for keys whose
    /// ordering it models, and `String` is not among them.
    entries: Vec<(String, String)>,
}

impl View for SmartFoxValues {
    type V = Map<Seq<char>, Seq<char>>;

    closed spec fn view(&self) -> Map<Seq<char>, Seq<char>> {
        pairs_map(pair_views(self.entries@))
    }
}

impl SmartFoxValues {
    /// Creates an empty store.
    pub fn new() -> (r: Self)
        ensures
            r@ == Map::<Seq<char>, Seq<char>>::empty(),
    {
        let r = SmartFoxValues { entries: Vec::new() };
        assert(pair_views(r.entries@).len() == 0);
        r
    }

    /// Records `value` under `key`, replacing an earlier value.
    pub fn insert(&mut self, key: String, value: String)
        ensures
            final(self)@ == old(self)@.insert(key@, value@),
    {
        let ghost before = pair_views(self.entries@);
        self.entries.push((key, value));
        assert(pair_views(self.entries@).drop_last() == before);
    }

    /// Returns the raw value for a SmartFox key.
    pub fn get(&self, key: &str) -> (r: Option<&str>)
        ensures
            r is Some <==> self@.dom().contains(key@),
            r matches Some(v) ==> v@ == self@[key@],
    {
        let wanted = key.to_owned();
        let ghost s = pair_views(self.entries@);
        let mut i: usize = self.entries.len();
        while i > 0
            invariant
                i <= self.entries@.len(),
                s == pair_views(self.entries@),
                wanted@ == key@,
                forall|k: int| i <= k < s.len() ==> (#[trigger] s[k]).0 != key@,
            decreases i,
        {
            if self.entries[i - 1].0 == wanted {
                proof {
                    lemma_pairs_map_last(s, key@, i - 1);
                }
                return Some(self.entries[i - 1].1.as_str());
            }
            i = i - 1;
        }
        proof {
            lemma_pairs_map_absent(s, key@);
        }
        None
    }

    /// Whether `other` holds every value of `self` under the same key.
    fn covered_by(&self, other: &Self) -> (r: bool)
        ensures
            r == forall|k: Seq<char>| #[trigger] self@.dom().contains(k) ==> holds_same(self@, other@, k),
    {
        let ghost s = pair_views(self.entries@);
        let mut i: usize = 0;
        while i < self.entries.len()
            invariant
                i <= self.entries@.len(),
                s == pair_views(self.entries@),
                forall|j: int| 0 <= j < i ==> holds_same(self@, other@, #[trigger] s[j].0),
            decreases self.entries@.len() - i,
        {
            let key = self.entries[i].0.as_str();
            assert(s[i as int].0 == key@);
            let mine = self.get(key);
            let theirs = other.get(key);
            proof {
                lemma_pairs_map_last_any(s, i as int);
            }
            match (mine, theirs) {
                (Some(a), Some(b)) => {
                    if a.to_owned() != b.to_owned() {
                        return false;
                    }
                    assert(holds_same(self@, other@, s[i as int].0));
                },
                _ => {
                    return false;
                },
            }
            i = i + 1;
        }
        assert forall|k: Seq<char>| #[trigger] self@.dom().contains(k) implies holds_same(self@, other@, k) by {
            lemma_pairs_map_keys(s, k);
            let j = choose|j: int| 0 <= j < s.len() && (#[trigger] s[j]).0 == k;
            assert(holds_same(self@, other@, s[j].0));
        }
        true
    }

    /// Builds raw values from key-value pairs; a later pair overrides an earlier one.
    pub fn from_pairs<const N: usize>(pairs: [(&str, &str); N]) -> (r: Self)
        ensures
            r@ == pairs_map(str_pair_views(pairs@)),
    {
        let mut entries: Vec<(String, String)> = Vec::new();
        let mut i: usize = 0;
        while i < N
            invariant
                i <= N,
                pairs@.len() == N,
                pair_views(entries@) == str_pair_views(pairs@).take(i as int),
            decreases N - i,
        {
            let (k, v) = pairs[i];
            let ghost before = pair_views(entries@);
            entries.push((k.to_owned(), v.to_owned()));
            assert(pair_views(entries@) == before.push((k@, v@)));
            assert(str_pair_views(pairs@).take(i + 1) == str_pair_views(pairs@).take(i as int).push(
                (k@, v@),
            ));
            i = i + 1;
        }
        assert(str_pair_views(pairs@).take(N as int) == str_pair_views(pairs@));
        SmartFoxValues { entries }
    }
}


/// Setting number for imported grid energy.
pub const TOTAL_ENERGY_FROM_GRID_SETTING: &'static str = "41000";
/// Setting number for exported grid energy.
pub const TOTAL_ENERGY_TO_GRID_SETTING: &'static str = "41004";
/// Setting number for SmartFox energy.
pub const TOTAL_ENERGY_SMARTFOX_SETTING: &'static str = "41008";

/// Setting number for the user password hash.
const USER_PASSWORD_SETTING: &'static str = "44300";
/// Setting number for the installer password hash.
const INSTALLER_PASSWORD_SETTING: &'static str = "44319";
/// Setting number for the SmartFox server address.
const NETWORK_SERVER_IP_SETTING: &'static str = "42008";
/// Setting number for the SmartFox upload cycle.
const NETWORK_UPLOAD_CYCLE_SETTING: &'static str = "42010";
/// Setting number for login activation.
const LOGIN_ENABLED_SETTING: &'static str = "44317";
/// Setting number for automatic restart activation.
const ADMINISTRATION_DAILY_RESTART_SETTING: &'static str = "44500";

/// Settings value identifier for imported grid energy.
const TOTAL_ENERGY_FROM_GRID_ID: &'static str = "energyFromGrid";
/// Settings value identifier for exported grid energy.
const TOTAL_ENERGY_TO_GRID_ID: &'static str = "energyToGrid";
/// Settings value identifier for SmartFox energy.
const TOTAL_ENERGY_SMARTFOX_ID: &'static str = "energySmartfox";
/// Settings value identifier for the user password hash.
const USER_PASSWORD_ID: &'static str = "userPassword";
/// Settings value identifier for the installer password hash.
const INSTALLER_PASSWORD_ID: &'static str = "installerPassword";
/// Settings value identifier for the SmartFox server address.
const NETWORK_SERVER_IP_ID: &'static str = "networkServerIp";
/// Settings value identifier for the SmartFox upload cycle.
const NETWORK_UPLOAD_CYCLE_ID: &'static str = "networkUploadCycle";
/// Settings value identifier for login activation.
const LOGIN_ENABLED_ID: &'static str = "hidloginEnabled";
/// Settings value identifier for automatic restart activation.
const ADMINISTRATION_DAILY_RESTART_ID: &'static str = "hidAdministrationDailyRestart";

/// Describes SmartFox settings to update.
#[derive(Clone, Copy, Debug, Default, PartialEq, Eq)]
pub struct SettingsUpdate {
    /// Imported grid energy in watt-hours.
    pub total_energy_from_grid: Option<u64>,
    /// Exported grid energy in watt-hours.
    pub total_energy_to_grid: Option<u64>,
    /// SmartFox energy in watt-hours.
    pub total_energy_smartfox: Option<u64>,
}

/// Reports SmartFox parsing and settings failures.
#[derive(Debug)]
pub enum Error {
    /// Indicates that the configured base URL is invalid.
    InvalidBaseUrl {
        /// URL parser error.
        source: ParseError,
    },
    /// Indicates that the `values.xml` URL could not be built.
    ValuesUrl {
        /// URL join error.
        source: ParseError,
    },
    /// Indicates that the settings submission URL could not be built.
    SettingsUrl {
        /// URL join error.
        source: ParseError,
    },
    /// Indicates that a required setting was missing.
    MissingSetting {
        /// Missing SmartFox setting name.
        field: &'static str,
    },
    /// Indicates that the settings submission was rejected.
    SettingsRejected {
        /// Rejection status reported by the device.
        status: String,
    },
    /// Indicates that the XML payload could not be parsed.
    Xml {
        /// XML parser error.
        source: XmlError,
    },
    /// Indicates that a value attribute could not be parsed.
    Attribute {
        /// XML attribute parser error.
        source: AttrError,
    },
    /// Indicates that XML text was not valid UTF-8.
    Utf8 {
        /// UTF-8 parser error.
        source: Utf8Error,
    },
    /// Indicates that the XML reader gave more events than the document has bytes without
    /// reaching its end.
    Unterminated,
}

/// A SmartFox failure, with its texts as character sequences.
pub enum SmartFoxFault {
    InvalidBaseUrl { source: ParseError },
    ValuesUrl { source: ParseError },
    SettingsUrl { source: ParseError },
    MissingSetting { field: Seq<char> },
    SettingsRejected { status: Seq<char> },
    Xml { source: XmlError },
    Attribute { source: AttrError },
    Utf8 { source: Utf8Error },
    Unterminated,
}

impl View for Error {
    type V = SmartFoxFault;

    open spec fn view(&self) -> SmartFoxFault {
        match self {
            Error::InvalidBaseUrl { source } => SmartFoxFault::InvalidBaseUrl { source: *source },
            Error::ValuesUrl { source } => SmartFoxFault::ValuesUrl { source: *source },
            Error::SettingsUrl { source } => SmartFoxFault::SettingsUrl { source: *source },
            Error::MissingSetting { field } => SmartFoxFault::MissingSetting { field: field@ },
            Error::SettingsRejected { status } => SmartFoxFault::SettingsRejected { status: status@ },
            Error::Xml { source } => SmartFoxFault::Xml { source: *source },
            Error::Attribute { source } => SmartFoxFault::Attribute { source: *source },
            Error::Utf8 { source } => SmartFoxFault::Utf8 { source: *source },
            Error::Unterminated => SmartFoxFault::Unterminated,
        }
    }
}

/// The decimal digits of `v`, without leading zeros.
pub open spec fn decimal_text(v: nat) -> Seq<char>
    decreases v,
{
    if v < 10 {
        seq![(('0' as nat) + v) as char]
    } else {
        decimal_text(v / 10).push((('0' as nat) + v % 10) as char)
    }
}

/// Writes `v` in decimal (`u64::to_string`).
pub fn decimal_string(v: u64) -> (s: String)
    ensures
        s@ == decimal_text(v as nat),
{
    let mut digits: Vec<char> = Vec::new();
    let mut n: u64 = v;
    let ghost mut rest: Seq<char> = Seq::empty();
    // `digits` holds the last digits of `v` in reverse; `n` is what is left of it.
    while n >= 10
        invariant
            decimal_text(v as nat) == decimal_text(n as nat) + digits@.reverse(),
        decreases n,
    {
        let d = (n % 10) as u8;
        let c = (48u8 + d) as char;
        assert(decimal_text(n as nat) == decimal_text((n / 10) as nat).push(c));
        let ghost before = digits@;
        digits.push(c);
        assert(digits@.reverse() =~= seq![c] + before.reverse());
        assert(decimal_text((n / 10) as nat).push(c) + before.reverse() =~= decimal_text((n / 10) as nat)
            + (seq![c] + before.reverse()));
        n = n / 10;
    }
    let c = (48u8 + n as u8) as char;
    let mut s = String::new();
    push_char(&mut s, c);
    let mut i: usize = digits.len();
    while i > 0
        invariant
            i <= digits@.len(),
            s@ + digits@.take(i as int).reverse() == decimal_text(v as nat),
        decreases i,
    {
        let ghost before = s@;
        let d = digits[i - 1];
        push_char(&mut s, d);
        assert(digits@.take(i as int).reverse() =~= seq![d] + digits@.take(i - 1).reverse());
        assert(s@ + digits@.take(i - 1).reverse() =~= before + (seq![d] + digits@.take(i - 1).reverse()));
        i = i - 1;
    }
    s
}

/// The settings that a request carries, in order: each setting number with the identifier of its
/// current value and, for energy counters, the value to set instead.
pub open spec fn request_plan(update: SettingsUpdate) -> Seq<(Seq<char>, Seq<char>, Option<u64>)> {
    seq![
        ("44300"@, "userPassword"@, None),
        ("44319"@, "installerPassword"@, None),
        ("42008"@, "networkServerIp"@, None),
        ("42010"@, "networkUploadCycle"@, None),
        ("41000"@, "energyFromGrid"@, update.total_energy_from_grid),
        ("41004"@, "energyToGrid"@, update.total_energy_to_grid),
        ("41008"@, "energySmartfox"@, update.total_energy_smartfox),
        ("44317"@, "hidloginEnabled"@, None),
        ("44500"@, "hidAdministrationDailyRestart"@, None),
    ]
}

/// The value sent for one planned setting: the update when there is one, otherwise the
/// device's current value.
pub open spec fn planned_value(m: Map<Seq<char>, Seq<char>>, id: Seq<char>, update: Option<u64>) -> Option<Seq<char>> {
    match update {
        Some(v) => Some(decimal_text(v as nat)),
        None => if m.dom().contains(id) {
            Some(m[id])
        } else {
            None
        },
    }
}

/// The `setallg.cgi` request for the planned settings from position `i` on: pairs of setting
/// number and value, or the identifier of the first setting that has no value.
pub open spec fn request_from(m: Map<Seq<char>, Seq<char>>, plan: Seq<(Seq<char>, Seq<char>, Option<u64>)>, i: int) -> Result<Seq<(Seq<char>, Seq<char>)>, Seq<char>>
    decreases plan.len() - i,
{
    if i >= plan.len() || i < 0 {
        Ok(Seq::empty())
    } else {
        match planned_value(m, plan[i].1, plan[i].2) {
            None => Err(plan[i].1),
            Some(v) => match request_from(m, plan, i + 1) {
                Ok(rest) => Ok(seq![(plan[i].0, v)] + rest),
                Err(f) => Err(f),
            },
        }
    }
}

/// The request that updates `update` and keeps every other setting as the device reports it.
pub open spec fn settings_request(m: Map<Seq<char>, Seq<char>>, update: SettingsUpdate) -> Result<Seq<(Seq<char>, Seq<char>)>, Seq<char>> {
    request_from(m, request_plan(update), 0)
}

/// Returns a required SmartFox setting value.
fn required_setting(settings: &SmartFoxValues, field: &'static str) -> (r: Result<String, Error>)
    ensures
        match r {
            Ok(v) => settings@.dom().contains(field@) && v@ == settings@[field@],
            Err(e) => !settings@.dom().contains(field@) && e@ == (SmartFoxFault::MissingSetting { field: field@ }),
        },
{
    match settings.get(field) {
        Some(v) => Ok(v.to_owned()),
        None => Err(Error::MissingSetting { field }),
    }
}

/// Returns either an updated or existing energy setting value.
fn updated_energy_setting(settings: &SmartFoxValues, field: &'static str, update: Option<u64>) -> (r: Result<String, Error>)
    ensures
        match r {
            Ok(v) => planned_value(settings@, field@, update) == Some(v@),
            Err(e) => planned_value(settings@, field@, update) is None && e@ == (SmartFoxFault::MissingSetting { field: field@ }),
        },
{
    match update {
        Some(value) => Ok(decimal_string(value)),
        None => required_setting(settings, field),
    }
}

/// The view of a request under construction.
pub open spec fn request_view(v: Seq<(&'static str, String)>) -> Seq<(Seq<char>, Seq<char>)> {
    v.map_values(|p: (&'static str, String)| (p.0@, p.1@))
}

/// Builds the `setallg.cgi` settings request.
pub fn settings_update_request(settings: &SmartFoxValues, update: &SettingsUpdate) -> (r: Result<Vec<(&'static str, String)>, Error>)
    ensures
        match (r, settings_request(settings@, *update)) {
            (Ok(v), Ok(w)) => request_view(v@) == w,
            (Err(e), Err(f)) => e@ == (SmartFoxFault::MissingSetting { field: f }),
            _ => false,
        },
{
    let plan: [(&'static str, &'static str, Option<u64>); 9] = [
        (USER_PASSWORD_SETTING, USER_PASSWORD_ID, None),
        (INSTALLER_PASSWORD_SETTING, INSTALLER_PASSWORD_ID, None),
        (NETWORK_SERVER_IP_SETTING, NETWORK_SERVER_IP_ID, None),
        (NETWORK_UPLOAD_CYCLE_SETTING, NETWORK_UPLOAD_CYCLE_ID, None),
        (TOTAL_ENERGY_FROM_GRID_SETTING, TOTAL_ENERGY_FROM_GRID_ID, update.total_energy_from_grid),
        (TOTAL_ENERGY_TO_GRID_SETTING, TOTAL_ENERGY_TO_GRID_ID, update.total_energy_to_grid),
        (TOTAL_ENERGY_SMARTFOX_SETTING, TOTAL_ENERGY_SMARTFOX_ID, update.total_energy_smartfox),
        (LOGIN_ENABLED_SETTING, LOGIN_ENABLED_ID, None),
        (ADMINISTRATION_DAILY_RESTART_SETTING, ADMINISTRATION_DAILY_RESTART_ID, None),
    ];
    let ghost spec_plan = request_plan(*update);
    assert(plan@.map_values(|p: (&'static str, &'static str, Option<u64>)| (p.0@, p.1@, p.2)) =~= spec_plan);
    let mut request: Vec<(&'static str, String)> = Vec::new();
    let mut i: usize = 0;
    while i < 9
        invariant
            i <= 9,
            plan@.len() == 9,
            spec_plan == request_plan(*update),
            forall|k: int| 0 <= k < 9 ==> (#[trigger] plan@[k]).0@ == spec_plan[k].0 && plan@[k].1@
                == spec_plan[k].1 && plan@[k].2 == spec_plan[k].2,
            request_from(settings@, spec_plan, 0) == match request_from(settings@, spec_plan, i as int) {
                Ok(rest) => Ok(request_view(request@) + rest),
                Err(f) => Err(f),
            },
        decreases 9 - i,
    {
        let (number, id, value) = plan[i];
        assert(plan@[i as int].0@ == spec_plan[i as int].0);
        let v = match updated_energy_setting(settings, id, value) {
            Ok(v) => v,
            Err(e) => {
                return Err(e);
            },
        };
        let ghost before = request_view(request@);
        request.push((number, v));
        assert(request_view(request@) == before + seq![(number@, v@)]);
        proof {
            match request_from(settings@, spec_plan, i + 1) {
                Ok(rest) => {
                    assert(before + (seq![(number@, v@)] + rest) == before + seq![(number@, v@)] + rest);
                },
                Err(_) => {},
            }
        }
        i = i + 1;
    }
    assert(request_view(request@) + Seq::<(Seq<char>, Seq<char>)>::empty() == request_view(request@));
    Ok(request)
}

/// Accepts a settings submission whose status is `true`.
pub fn check_settings_status(status: String) -> (r: Result<(), Error>)
    ensures
        r is Ok <==> status@ == "true"@,
        r matches Err(e) ==> e@ == (SmartFoxFault::SettingsRejected { status: status@ }),
{
    let expected = "true".to_owned();
    if status == expected {
        Ok(())
    } else {
        Err(Error::SettingsRejected { status })
    }
}


/// A parsed URL, opaque here.
#[verifier::external_type_specification]
#[verifier::external_body]
pub struct ExUrl(Url);

/// The URL parser's error, carried through opaque.
#[verifier::external_type_specification]
#[verifier::external_body]
pub struct ExParseError(ParseError);

/// What `Url::parse` gives for `text`: the absolute URL it writes, or why it writes none.
pub uninterp spec fn parsed_url(text: Seq<char>) -> Result<Url, ParseError>;

/// What `Url::join` gives for `input` read against the URL `base`.
pub uninterp spec fn joined_url(base: Url, input: Seq<char>) -> Result<Url, ParseError>;

/// Parses an absolute URL (`Url::parse`). Claimed: the result is the one that the text
/// determines.
#[verifier::external_body]
fn parse_url(text: &str) -> (r: Result<Url, ParseError>)
    ensures
        r == parsed_url(text@),
{
    Url::parse(text)
}

/// Reads `input` against the URL `base` (`Url::join`). Claimed: the result is the one that the
/// base and the input determine.
#[verifier::external_body]
fn join_url(base: &Url, input: &str) -> (r: Result<Url, ParseError>)
    ensures
        r == joined_url(*base, input@),
{
    base.join(input)
}

/// Reads the base URL of a SmartFox web interface; a text that is not an absolute URL is an
/// invalid base URL, with the parser's error.
pub fn base_url(text: &str) -> (r: Result<Url, Error>)
    ensures
        match (r, parsed_url(text@)) {
            (Ok(u), Ok(p)) => u == p,
            (Err(e), Err(p)) => e@ == (SmartFoxFault::InvalidBaseUrl { source: p }),
            _ => false,
        },
{
    match parse_url(text) {
        Ok(u) => Ok(u),
        Err(source) => Err(Error::InvalidBaseUrl { source }),
    }
}

/// The URL of the XML endpoint `endpoint` (such as `values.xml`) under the device's base URL; a
/// failed join is a values URL error, with the parser's error.
pub fn endpoint_url(base: &Url, endpoint: &str) -> (r: Result<Url, Error>)
    ensures
        match (r, joined_url(*base, endpoint@)) {
            (Ok(u), Ok(p)) => u == p,
            (Err(e), Err(p)) => e@ == (SmartFoxFault::ValuesUrl { source: p }),
            _ => false,
        },
{
    match join_url(base, endpoint) {
        Ok(u) => Ok(u),
        Err(source) => Err(Error::ValuesUrl { source }),
    }
}

/// The URL that settings updates are submitted to, `setallg.cgi` under the device's base URL; a
/// failed join is a settings URL error, with the parser's error.
pub fn settings_url(base: &Url) -> (r: Result<Url, Error>)
    ensures
        match (r, joined_url(*base, "setallg.cgi"@)) {
            (Ok(u), Ok(p)) => u == p,
            (Err(e), Err(p)) => e@ == (SmartFoxFault::SettingsUrl { source: p }),
            _ => false,
        },
{
    match join_url(base, "setallg.cgi") {
        Ok(u) => Ok(u),
        Err(source) => Err(Error::SettingsUrl { source }),
    }
}

/// std's UTF-8 decoding error, carried through opaque.
#[verifier::external_type_specification]
#[verifier::external_body]
pub struct ExUtf8Error(Utf8Error);

/// The error that `str::from_utf8` reports for `bytes` (where the valid prefix ends and how long
/// the invalid sequence is).
pub uninterp spec fn utf8_error(bytes: Seq<u8>) -> Utf8Error;

/// Decodes UTF-8 (`str::from_utf8`). Claimed: it succeeds exactly on valid UTF-8 and then gives
/// the characters that the bytes encode; otherwise its error is the one the bytes determine.
#[verifier::external_body]
fn utf8_str(bytes: &[u8]) -> (r: Result<&str, Utf8Error>)
    ensures
        r is Ok <==> valid_utf8(bytes@),
        r matches Ok(s) ==> s@ == decode_utf8(bytes@),
        r matches Err(e) ==> e == utf8_error(bytes@),
{
    core::str::from_utf8(bytes)
}

/// `value`, the tag of a SmartFox value element.
pub open spec fn value_tag() -> Seq<u8> {
    seq![118u8, 97u8, 108u8, 117u8, 101u8]
}

/// `id`, the attribute that names a SmartFox value.
pub open spec fn id_key() -> Seq<u8> {
    seq![105u8, 100u8]
}

/// The identifier among a value element's attributes: the first `id` attribute decoded as UTF-8;
/// an attribute that cannot be read before it fails with quick-xml's error, and a value that is
/// not UTF-8 fails.
pub open spec fn value_id_of(attrs: Seq<Result<(Seq<u8>, Seq<u8>), AttrError>>) -> Result<Option<Seq<char>>, SmartFoxFault>
    decreases attrs.len(),
{
    if attrs.len() == 0 {
        Ok(None)
    } else {
        match attrs[0] {
            Err(e) => Err(SmartFoxFault::Attribute { source: e }),
            Ok((k, v)) => if k == id_key() {
                if valid_utf8(v) {
                    Ok(Some(decode_utf8(v)))
                } else {
                    Err(SmartFoxFault::Utf8 { source: utf8_error(v) })
                }
            } else {
                value_id_of(attrs.drop_first())
            },
        }
    }
}

/// The markup and encoding fixes applied to the text of a value element.
pub open spec fn normalized_text(s: Seq<char>) -> Seq<char> {
    let a = replace_all(trim(s), "&lt;span&gt;"@, seq![' ']);
    let b = replace_all(a, "&lt;/span&gt;"@, Seq::empty());
    let c = replace_all(b, "<span>"@, seq![' ']);
    let d = replace_all(c, "</span>"@, Seq::empty());
    let e = replace_all(d, "&#176;"@, "\u{b0}"@);
    let f = replace_all(e, "&#x25;"@, "%"@);
    replace_all(f, "\u{c2}\u{b0}C"@, "\u{b0}C"@)
}

/// Normalizes text produced by the SmartFox XML endpoint.
fn normalize_text(value: &[char]) -> (r: Vec<char>)
    ensures
        r@ == normalized_text(value@),
{
    let space = [' '];
    let nothing: [char; 0] = [];
    let span_open_escaped = chars_of("&lt;span&gt;");
    let span_close_escaped = chars_of("&lt;/span&gt;");
    let span_open = chars_of("<span>");
    let span_close = chars_of("</span>");
    let degree_ref = chars_of("&#176;");
    let degree = chars_of("\u{b0}");
    let percent_ref = chars_of("&#x25;");
    let percent = chars_of("%");
    let broken_celsius = chars_of("\u{c2}\u{b0}C");
    let celsius = chars_of("\u{b0}C");
    proof {
        reveal_strlit("&lt;span&gt;");
        reveal_strlit("&lt;/span&gt;");
        reveal_strlit("<span>");
        reveal_strlit("</span>");
        reveal_strlit("&#176;");
        reveal_strlit("&#x25;");
        reveal_strlit("\u{c2}\u{b0}C");
        assert(space@ == seq![' ']);
        assert(nothing@ == Seq::<char>::empty());
    }
    let t = trimmed(value);
    let a = replaced(t.as_slice(), span_open_escaped.as_slice(), space.as_slice());
    let b = replaced(a.as_slice(), span_close_escaped.as_slice(), nothing.as_slice());
    let c = replaced(b.as_slice(), span_open.as_slice(), space.as_slice());
    let d = replaced(c.as_slice(), span_close.as_slice(), nothing.as_slice());
    let e = replaced(d.as_slice(), degree_ref.as_slice(), degree.as_slice());
    let f = replaced(e.as_slice(), percent_ref.as_slice(), percent.as_slice());
    replaced(f.as_slice(), broken_celsius.as_slice(), celsius.as_slice())
}

/// What has been read of a values document so far.
pub struct XmlScan {
    /// Values of the completed value elements.
    pub entries: Map<Seq<char>, Seq<char>>,
    /// The identifier of the open value element, if any.
    pub id: Option<Seq<char>>,
    /// The text collected since the last value element opened.
    pub text: Seq<char>,
}

/// The outcome of one event.
pub enum XmlStep {
    Next(XmlScan),
    Finished(Map<Seq<char>, Seq<char>>),
    Failed(SmartFoxFault),
}

/// How one event changes the scan: a `value` start tag opens an element named by its `id`
/// and clears the text; text and references (written back as `&name;`) are collected while an
/// element is open; a `value` end tag records the collected text, normalized, under the open
/// identifier; the end of the document finishes.
pub open spec fn scan_step(st: XmlScan, t: TokenView) -> XmlStep {
    match t {
        TokenView::Start { name, attributes } => if name == value_tag() {
            match value_id_of(attributes) {
                Err(f) => XmlStep::Failed(f),
                Ok(id) => XmlStep::Next(XmlScan { entries: st.entries, id, text: Seq::empty() }),
            }
        } else {
            XmlStep::Next(st)
        },
        TokenView::Text { raw } => if st.id is Some {
            if valid_utf8(raw) {
                XmlStep::Next(XmlScan { entries: st.entries, id: st.id, text: st.text + decode_utf8(raw) })
            } else {
                XmlStep::Failed(SmartFoxFault::Utf8 { source: utf8_error(raw) })
            }
        } else {
            XmlStep::Next(st)
        },
        TokenView::Reference { raw } => if st.id is Some {
            if valid_utf8(raw) {
                XmlStep::Next(XmlScan {
                    entries: st.entries,
                    id: st.id,
                    text: st.text + seq!['&'] + decode_utf8(raw) + seq![';'],
                })
            } else {
                XmlStep::Failed(SmartFoxFault::Utf8 { source: utf8_error(raw) })
            }
        } else {
            XmlStep::Next(st)
        },
        TokenView::End { name } => if name == value_tag() {
            match st.id {
                Some(id) => XmlStep::Next(XmlScan {
                    entries: st.entries.insert(id, normalized_text(st.text)),
                    id: None,
                    text: st.text,
                }),
                None => XmlStep::Next(st),
            }
        } else {
            XmlStep::Next(st)
        },
        TokenView::Eof => XmlStep::Finished(st.entries),
        TokenView::Other => XmlStep::Next(st),
        TokenView::Failed { error } => XmlStep::Failed(SmartFoxFault::Xml { source: error }),
    }
}

/// The values that reading events `i` and on of `input`, with white space around text trimmed,
/// gives from scan `st`; reaching event `budget` without the end of the document fails.
pub open spec fn scan_from(input: Seq<char>, st: XmlScan, i: nat, budget: nat) -> Result<Map<Seq<char>, Seq<char>>, SmartFoxFault>
    decreases budget - i,
{
    if i >= budget {
        Err(SmartFoxFault::Unterminated)
    } else {
        match scan_step(st, xml_token_at(input, true, i)) {
            XmlStep::Next(next) => scan_from(input, next, i + 1, budget),
            XmlStep::Finished(m) => Ok(m),
            XmlStep::Failed(f) => Err(f),
        }
    }
}

/// The events of a document that reading its values looks at: one more than it has bytes. Every
/// event before the end of the document takes up at least one byte, so the end comes within.
pub open spec fn read_budget(input: Seq<char>) -> nat {
    (vstd::utf8::encode_utf8(input).len() as usize) as nat + 1
}

/// The values that a SmartFox `values.xml` document holds, or the failure to read them.
pub open spec fn values_from_xml(input: Seq<char>) -> Result<Map<Seq<char>, Seq<char>>, SmartFoxFault> {
    scan_from(input, XmlScan { entries: Map::empty(), id: None, text: Seq::empty() }, 0, read_budget(input))
}

fn is_value_tag(name: &[u8]) -> (r: bool)
    ensures
        r == (name@ == value_tag()),
{
    let tag: [u8; 5] = [118, 97, 108, 117, 101];
    assert(tag@ == value_tag());
    if name.len() != 5 {
        return false;
    }
    let mut i: usize = 0;
    while i < 5
        invariant
            i <= 5,
            name@.len() == 5,
            tag@ == value_tag(),
            forall|k: int| 0 <= k < i ==> name@[k] == tag@[k],
        decreases 5 - i,
    {
        if name[i] != tag[i] {
            return false;
        }
        i = i + 1;
    }
    assert(name@ =~= tag@);
    true
}

fn is_id_key(key: &[u8]) -> (r: bool)
    ensures
        r == (key@ == id_key()),
{
    if key.len() == 2 && key[0] == 105 && key[1] == 100 {
        assert(key@ =~= id_key());
        true
    } else {
        false
    }
}

/// Extracts the SmartFox identifier from a value element's attributes.
fn value_id(attrs: Vec<Result<(Vec<u8>, Vec<u8>), AttrError>>) -> (r: Result<Option<String>, Error>)
    ensures
        match (r, value_id_of(attribute_views(attrs@))) {
            (Ok(Some(s)), Ok(Some(t))) => s@ == t,
            (Ok(None), Ok(None)) => true,
            (Err(e), Err(f)) => e@ == f,
            _ => false,
        },
{
    let mut attributes = attrs;
    let ghost all = attribute_views(attributes@);
    let mut i: usize = 0;
    assert(all.skip(0) == all);
    while i < attributes.len()
        invariant
            i <= attributes@.len(),
            all.len() == attributes@.len(),
            attributes@ == attrs@,
            all == attribute_views(attributes@),
            value_id_of(all) == value_id_of(all.skip(i as int)),
        decreases attributes@.len() - i,
    {
        assert(all.skip(i as int)[0] == attribute_view(attributes@[i as int]));
        assert(all.skip(i as int).len() > 0);
        assert(all.skip(i as int).drop_first() == all.skip(i + 1));
        match &attributes[i] {
            Err(_) => {
                assert(all.skip(i as int)[0] is Err);
                return match attributes.remove(i) {
                    Err(source) => Err(Error::Attribute { source }),
                    Ok(_) => Ok(None),
                };
            },
            Ok((key, value)) => {
                assert(all.skip(i as int)[0] == Ok::<_, AttrError>((key@, value@)));
                if is_id_key(key.as_slice()) {
                    return match utf8_str(value.as_slice()) {
                        Ok(s) => Ok(Some(s.to_owned())),
                        Err(source) => Err(Error::Utf8 { source }),
                    };
                }
            },
        }
        i = i + 1;
    }
    Ok(None)
}

/// What has been read of a values document so far: the values of the completed value elements,
/// the identifier of the open one, if any, and the text collected since it opened.
pub struct ValueScan {
    pub values: SmartFoxValues,
    pub id: Option<String>,
    pub text: String,
}

impl View for ValueScan {
    type V = XmlScan;

    open spec fn view(&self) -> XmlScan {
        XmlScan { entries: self.values@, id: opt_chars(self.id), text: self.text@ }
    }
}

/// What one event does to a [`ValueScan`]: the scan goes on, the document is finished with its
/// values, or reading it failed.
pub enum ScanStep {
    Next(ValueScan),
    Finished(SmartFoxValues),
    Failed(Error),
}

impl View for ScanStep {
    type V = XmlStep;

    open spec fn view(&self) -> XmlStep {
        match self {
            ScanStep::Next(s) => XmlStep::Next(s@),
            ScanStep::Finished(v) => XmlStep::Finished(v@),
            ScanStep::Failed(e) => XmlStep::Failed(e@),
        }
    }
}

impl ValueScan {
    /// A scan at the start of a document: no values, no open element, no text.
    pub fn new() -> (r: Self)
        ensures
            r@ == (XmlScan { entries: Map::empty(), id: None, text: Seq::empty() }),
    {
        ValueScan { values: SmartFoxValues::new(), id: None, text: String::new() }
    }

    /// Applies one event of the document to the scan.
    pub fn step(self, token: XmlToken) -> (r: ScanStep)
        ensures
            r@ == scan_step(self@, token@),
    {
        let ValueScan { mut values, id: mut current_id, text: mut current_text } = self;
        match token {
            XmlToken::Start { name, attributes } => {
                if is_value_tag(name.as_slice()) {
                    match value_id(attributes) {
                        Err(e) => {
                            return ScanStep::Failed(e);
                        },
                        Ok(id) => {
                            current_id = id;
                            current_text = String::new();
                        },
                    }
                }
            },
            XmlToken::Text { raw } => {
                if current_id.is_some() {
                    match utf8_str(raw.as_slice()) {
                        Err(source) => {
                            return ScanStep::Failed(Error::Utf8 { source });
                        },
                        Ok(s) => {
                            current_text.append(s);
                        },
                    }
                }
            },
            XmlToken::Reference { raw } => {
                if current_id.is_some() {
                    match utf8_str(raw.as_slice()) {
                        Err(source) => {
                            return ScanStep::Failed(Error::Utf8 { source });
                        },
                        Ok(s) => {
                            let ghost before = current_text@;
                            push_char(&mut current_text, '&');
                            current_text.append(s);
                            push_char(&mut current_text, ';');
                            assert(current_text@ =~= before + seq!['&'] + s@ + seq![';']);
                        },
                    }
                }
            },
            XmlToken::End { name } => {
                if is_value_tag(name.as_slice()) {
                    match current_id {
                        Some(id) => {
                            let text_chars = chars_of(current_text.as_str());
                            let normalized = normalize_text(text_chars.as_slice());
                            values.insert(id, string_of(normalized.as_slice()));
                            current_id = None;
                        },
                        None => {},
                    }
                }
            },
            XmlToken::Eof => {
                return ScanStep::Finished(values);
            },
            XmlToken::Other => {},
            XmlToken::Failed { error } => {
                return ScanStep::Failed(Error::Xml { source: error });
            },
        }
        ScanStep::Next(ValueScan { values, id: current_id, text: current_text })
    }
}

impl SmartFoxValues {
    /// Parses a SmartFox `values.xml` payload.
    pub fn from_xml(xml: &str) -> (r: Result<Self, Error>)
        ensures
            match r {
                Ok(v) => values_from_xml(xml@) == Ok::<_, SmartFoxFault>(v@),
                Err(e) => values_from_xml(xml@) == Err::<Map<Seq<char>, Seq<char>>, _>(e@),
            },
    {
        let mut reader = open_reader(xml);
        trim_text(&mut reader);
        let budget: u128 = xml.len() as u128 + 1;
        let mut scan = ValueScan::new();
        let mut reads: u128 = 0;
        while reads < budget
            invariant
                budget == read_budget(xml@),
                reader@.input == xml@,
                reader@.trims_text,
                reader@.reads == reads,
                reads <= budget,
                values_from_xml(xml@) == scan_from(xml@, scan@, reads as nat, budget as nat),
            decreases budget - reads,
        {
            let token = read_token(&mut reader);
            reads = reads + 1;
            match scan.step(token) {
                ScanStep::Next(next) => {
                    scan = next;
                },
                ScanStep::Finished(values) => {
                    return Ok(values);
                },
                ScanStep::Failed(e) => {
                    return Err(e);
                },
            }
        }
        Err(Error::Unterminated)
    }
}


/// A read gives back what the last write under the same key wrote, and a write leaves the other
/// keys as they were.
pub proof fn lemma_get_after_insert(m: Map<Seq<char>, Seq<char>>, k: Seq<char>, v: Seq<char>, other: Seq<char>)
    requires
        other != k,
    ensures
        m.insert(k, v).dom().contains(k),
        m.insert(k, v)[k] == v,
        m.insert(k, v).dom().contains(other) == m.dom().contains(other),
        m.dom().contains(other) ==> m.insert(k, v)[other] == m[other],
{
}

impl PartialEq for SmartFoxValues {
    fn eq(&self, other: &Self) -> (r: bool) {
        let r = self.covered_by(other) && other.covered_by(self);
        proof {
            if r {
                assert forall|k: Seq<char>| #[trigger] other@.dom().contains(k) implies self@.dom().contains(k) by {
                    assert(holds_same(other@, self@, k));
                }
                assert forall|k: Seq<char>| #[trigger] self@.dom().contains(k) implies self@[k] == other@[k] by {
                    assert(holds_same(self@, other@, k));
                }
                assert(self@ =~= other@);
            } else if self@ == other@ {
                assert forall|k: Seq<char>| #[trigger] self@.dom().contains(k) implies holds_same(self@, other@, k) by {}
                assert forall|k: Seq<char>| #[trigger] other@.dom().contains(k) implies holds_same(other@, self@, k) by {}
            }
        }
        r
    }
}

impl PartialEqSpecImpl for SmartFoxValues {
    open spec fn obeys_eq_spec() -> bool {
        true
    }

    open spec fn eq_spec(&self, other: &SmartFoxValues) -> bool {
        self@ == other@
    }
}

/// The digits of a number read back as that number.
pub proof fn lemma_decimal_text_reads_back(v: nat)
    ensures
        crate::number::all_digits(decimal_text(v)),
        crate::number::digits_value(decimal_text(v)) == v,
        decimal_text(v).len() > 0,
    decreases v,
{
    if v >= 10 {
        lemma_decimal_text_reads_back(v / 10);
        let t = decimal_text(v / 10);
        let c = (('0' as nat) + v % 10) as char;
        assert(decimal_text(v) == t.push(c));
        assert(t.push(c).drop_last() == t);
        assert(c as int == 48 + v % 10);
        assert(crate::number::digit_value(c) == v % 10);
        assert(crate::number::digits_value(t.push(c)) == crate::number::digits_value(t) * 10 + crate::number::digit_value(c));
        assert((v / 10) * 10 + v % 10 == v);
        assert(crate::number::all_digits(t.push(c))) by {
            assert forall|i: int| 0 <= i < t.push(c).len() implies crate::number::is_digit(#[trigger] t.push(c)[i]) by {
                if i < t.len() {
                    assert(t.push(c)[i] == t[i]);
                }
            }
        }
    } else {
        assert(decimal_text(v) == seq![(('0' as nat) + v) as char]);
        assert(decimal_text(v).drop_last() == Seq::<char>::empty());
        let c = (('0' as nat) + v) as char;
        assert(c as int == 48 + v);
        assert(crate::number::digits_value(decimal_text(v)) == crate::number::digits_value(Seq::<char>::empty()) * 10 + crate::number::digit_value(c));
    }
}

/// The parts of a successful request from position `i` on: one pair per planned setting, with
/// the setting's number and the value planned for it.
proof fn lemma_request_from_parts(m: Map<Seq<char>, Seq<char>>, plan: Seq<(Seq<char>, Seq<char>, Option<u64>)>, i: int)
    requires
        0 <= i <= plan.len(),
        request_from(m, plan, i) is Ok,
    ensures
        ({
            let req = request_from(m, plan, i)->Ok_0;
            &&& req.len() == plan.len() - i
            &&& forall|j: int| 0 <= j < req.len() ==> (#[trigger] req[j]).0 == plan[i + j].0
                && planned_value(m, plan[i + j].1, plan[i + j].2) == Some(req[j].1)
        }),
    decreases plan.len() - i,
{
    if i < plan.len() {
        lemma_request_from_parts(m, plan, i + 1);
        let rest = request_from(m, plan, i + 1)->Ok_0;
        let v = planned_value(m, plan[i].1, plan[i].2)->Some_0;
        let req = request_from(m, plan, i)->Ok_0;
        assert(req == seq![(plan[i].0, v)] + rest);
        assert forall|j: int| 0 <= j < req.len() implies (#[trigger] req[j]).0 == plan[i + j].0
            && planned_value(m, plan[i + j].1, plan[i + j].2) == Some(req[j].1) by {
            if j > 0 {
                assert(req[j] == rest[j - 1]);
            }
        }
    }
}

/// A settings request keeps every setting it does not update: it carries the nine settings in
/// their fixed order, an energy counter with an update gets the update written in decimal, and
/// every other setting gets the value the device reported. It fails exactly when one of the
/// settings it must keep is missing.
pub proof fn lemma_settings_request_keeps_untouched(m: Map<Seq<char>, Seq<char>>, update: SettingsUpdate)
    ensures
        settings_request(m, update) is Ok <==> (forall|j: int| 0 <= j < 9 ==> (#[trigger] request_plan(update)[j]).2 is Some
            || m.dom().contains(request_plan(update)[j].1)),
        settings_request(m, update) matches Ok(req) ==> {
            &&& req.len() == 9
            &&& forall|j: int| 0 <= j < 9 ==> (#[trigger] req[j]).0 == request_plan(update)[j].0 && req[j].1 == match request_plan(update)[j].2 {
                Some(v) => decimal_text(v as nat),
                None => m[request_plan(update)[j].1],
            }
        },
{
    let plan = request_plan(update);
    if settings_request(m, update) is Ok {
        lemma_request_from_parts(m, plan, 0);
        let req = settings_request(m, update)->Ok_0;
        assert forall|j: int| 0 <= j < 9 implies (#[trigger] plan[j]).2 is Some || m.dom().contains(plan[j].1) by {
            assert(planned_value(m, plan[j].1, plan[j].2) == Some(req[j].1));
        }
    } else {
        lemma_request_fails_on_missing(m, plan, 0);
    }
}

/// The value for one setting in a request: the update written in decimal when there is one,
/// otherwise what the device reports under `id`.
pub open spec fn kept_or_updated(m: Map<Seq<char>, Seq<char>>, id: Seq<char>, update: Option<u64>) -> Seq<char> {
    match update {
        Some(v) => decimal_text(v as nat),
        None => m[id],
    }
}

/// Each setting of a request comes from its own source: the grid import counter (41000) from
/// `total_energy_from_grid` or the device's `energyFromGrid`, the grid export counter (41004)
/// from `total_energy_to_grid` or `energyToGrid`, the SmartFox counter (41008) from
/// `total_energy_smartfox` or `energySmartfox`, and every other setting from the device's value
/// under its own identifier. The request is built exactly when the device reports every setting
/// that is kept.
pub proof fn lemma_settings_follow_their_own_fields(m: Map<Seq<char>, Seq<char>>, update: SettingsUpdate)
    ensures
        settings_request(m, update) is Ok <==> {
            &&& m.dom().contains("userPassword"@)
            &&& m.dom().contains("installerPassword"@)
            &&& m.dom().contains("networkServerIp"@)
            &&& m.dom().contains("networkUploadCycle"@)
            &&& update.total_energy_from_grid is Some || m.dom().contains("energyFromGrid"@)
            &&& update.total_energy_to_grid is Some || m.dom().contains("energyToGrid"@)
            &&& update.total_energy_smartfox is Some || m.dom().contains("energySmartfox"@)
            &&& m.dom().contains("hidloginEnabled"@)
            &&& m.dom().contains("hidAdministrationDailyRestart"@)
        },
        settings_request(m, update) matches Ok(req) ==> req =~= seq![
            ("44300"@, m["userPassword"@]),
            ("44319"@, m["installerPassword"@]),
            ("42008"@, m["networkServerIp"@]),
            ("42010"@, m["networkUploadCycle"@]),
            ("41000"@, kept_or_updated(m, "energyFromGrid"@, update.total_energy_from_grid)),
            ("41004"@, kept_or_updated(m, "energyToGrid"@, update.total_energy_to_grid)),
            ("41008"@, kept_or_updated(m, "energySmartfox"@, update.total_energy_smartfox)),
            ("44317"@, m["hidloginEnabled"@]),
            ("44500"@, m["hidAdministrationDailyRestart"@]),
        ],
{
    lemma_settings_request_keeps_untouched(m, update);
    let plan = request_plan(update);
    assert(plan[0] == ("44300"@, "userPassword"@, None::<u64>));
    assert(plan[1] == ("44319"@, "installerPassword"@, None::<u64>));
    assert(plan[2] == ("42008"@, "networkServerIp"@, None::<u64>));
    assert(plan[3] == ("42010"@, "networkUploadCycle"@, None::<u64>));
    assert(plan[4] == ("41000"@, "energyFromGrid"@, update.total_energy_from_grid));
    assert(plan[5] == ("41004"@, "energyToGrid"@, update.total_energy_to_grid));
    assert(plan[6] == ("41008"@, "energySmartfox"@, update.total_energy_smartfox));
    assert(plan[7] == ("44317"@, "hidloginEnabled"@, None::<u64>));
    assert(plan[8] == ("44500"@, "hidAdministrationDailyRestart"@, None::<u64>));
    if settings_request(m, update) is Ok {
        let req = settings_request(m, update)->Ok_0;
        assert(req[0] == ("44300"@, m["userPassword"@]));
        assert(req[1] == ("44319"@, m["installerPassword"@]));
        assert(req[2] == ("42008"@, m["networkServerIp"@]));
        assert(req[3] == ("42010"@, m["networkUploadCycle"@]));
        assert(req[4] == ("41000"@, kept_or_updated(m, "energyFromGrid"@, update.total_energy_from_grid)));
        assert(req[5] == ("41004"@, kept_or_updated(m, "energyToGrid"@, update.total_energy_to_grid)));
        assert(req[6] == ("41008"@, kept_or_updated(m, "energySmartfox"@, update.total_energy_smartfox)));
        assert(req[7] == ("44317"@, m["hidloginEnabled"@]));
        assert(req[8] == ("44500"@, m["hidAdministrationDailyRestart"@]));
    } else {
        let j = choose|j: int| 0 <= j < 9 && !((#[trigger] plan[j]).2 is Some || m.dom().contains(plan[j].1));
        assert(0 <= j < 9);
    }
}

proof fn lemma_request_fails_on_missing(m: Map<Seq<char>, Seq<char>>, plan: Seq<(Seq<char>, Seq<char>, Option<u64>)>, i: int)
    requires
        0 <= i <= plan.len(),
        request_from(m, plan, i) is Err,
    ensures
        exists|j: int| i <= j < plan.len() && (#[trigger] plan[j]).2 is None && !m.dom().contains(plan[j].1),
    decreases plan.len() - i,
{
    if planned_value(m, plan[i].1, plan[i].2) is None {
        assert(plan[i].2 is None && !m.dom().contains(plan[i].1));
    } else {
        lemma_request_fails_on_missing(m, plan, i + 1);
    }
}

} // verus!
