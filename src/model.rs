//! The records exchanged with the ranking service.
use vstd::prelude::*;
use vstd::string::StrSliceExecFns;
use crate::decimal::{all_digits, is_unsigned_text, parse_u32, unsigned_value};

verus! {

/// The rank history of one domain, in the order the service gave it.
#[derive(Clone, Debug, PartialEq, Eq)]
pub struct RanksResponse {
    pub ranks: Vec<DomainRank>,
}

/// The rank of a domain on one day.
#[derive(Clone, Debug, PartialEq, Eq)]
pub struct DomainRank {
    pub date: String,
    pub rank: u64,
}

/// A generated list as the service describes it.
#[derive(Clone, Debug, PartialEq, Eq)]
pub struct ListsResponse {
    pub list_id: String,
    pub available: bool,
    /// Where the list's text can be downloaded.
    pub download: String,
    pub created_on: String,
    pub configuration: Configuration,
    pub failed: bool,
    pub jobs_ahead: Option<i64>,
}

/// The parameters that a list was generated from.
///
/// A `_value` field means something only where its toggle or filter is on; that is
/// left to the reader of the record.
#[derive(Clone, Debug, PartialEq, Eq)]
pub struct Configuration {
    /// Data providers that were combined.
    pub providers: Vec<Provider>,
    /// First day of data collection (YYYY-MM-DD).
    pub start_date: String,
    /// Last day of data collection (YYYY-MM-DD).
    pub end_date: String,
    /// How the providers' rankings were combined.
    pub combination_method: CombinationMethod,
    /// How much of each provider's list was used.
    pub list_prefix: ListPrefix,
    /// Keep pay-level domains only.
    pub filter_pld: ToggleOption,
    /// Keep domains present on a minimum number of days.
    pub inclusion_days: ToggleOption,
    pub inclusion_days_value: Option<u32>,
    /// Keep domains present in a minimum number of lists.
    pub inclusion_lists: ToggleOption,
    pub inclusion_lists_value: Option<u32>,
    /// Top-level-domain filtering mode.
    pub filter_tld: Option<FilterTldOption>,
    /// Top-level domains kept where `filter_tld` is `Include`.
    pub filter_tld_value: Option<Vec<String>>,
    /// Keep one domain per organization.
    pub filter_organization: ToggleOption,
    /// Keep listed subdomains only.
    pub filter_subdomain: ToggleOption,
    pub filter_subdomain_value: Option<Vec<String>>,
    /// Drop domains flagged by Safe Browsing.
    pub filter_safe_browsing: ToggleOption,
    /// Keep domains of the Chrome User Experience Report.
    pub filter_crux: ToggleOption,
    pub filter_crux_month: Option<CruxMonth>,
    pub filter_crux_type: Option<CruxType>,
    /// The selected dataset, for every type but `Global`.
    pub filter_crux_value: Option<Vec<String>>,
}

/// A configuration as it was sent: each toggle may be absent.
#[derive(Clone, Debug, PartialEq, Eq)]
pub struct ConfigurationFields {
    pub providers: Vec<Provider>,
    pub start_date: String,
    pub end_date: String,
    pub combination_method: CombinationMethod,
    pub list_prefix: ListPrefix,
    pub filter_pld: Option<ToggleOption>,
    pub inclusion_days: Option<ToggleOption>,
    pub inclusion_days_value: Option<u32>,
    pub inclusion_lists: Option<ToggleOption>,
    pub inclusion_lists_value: Option<u32>,
    pub filter_tld: Option<FilterTldOption>,
    pub filter_tld_value: Option<Vec<String>>,
    pub filter_organization: Option<ToggleOption>,
    pub filter_subdomain: Option<ToggleOption>,
    pub filter_subdomain_value: Option<Vec<String>>,
    pub filter_safe_browsing: Option<ToggleOption>,
    pub filter_crux: Option<ToggleOption>,
    pub filter_crux_month: Option<CruxMonth>,
    pub filter_crux_type: Option<CruxType>,
    pub filter_crux_value: Option<Vec<String>>,
}

/// Supported data providers.
#[derive(Clone, Copy, Debug, PartialEq, Eq, Structural)]
pub enum Provider {
    Crux,
    Majestic,
    Radar,
    Umbrella,
    Alexa,
    Quantcast,
    Farsight,
}

/// Methods for combining rankings from different providers.
#[derive(Clone, Copy, Debug, PartialEq, Eq, Structural)]
pub enum CombinationMethod {
    Dowdall,
    Borda,
}

/// Filter TLD options.
#[derive(Clone, Copy, Debug, PartialEq, Eq, Structural)]
pub enum FilterTldOption {
    Include,
    False,
}

/// Type of CrUX dataset to filter on.
#[derive(Clone, Copy, Debug, PartialEq, Eq, Structural)]
pub enum CruxType {
    Global,
    Country,
    Region,
    Subregion,
}

/// Toggle options (on/off).
#[derive(Clone, Copy, Debug, PartialEq, Eq, Structural)]
pub enum ToggleOption {
    On,
    Off,
}

/// A toggle that was not given is off.
impl Default for ToggleOption {
    fn default() -> (r: Self)
        ensures
            r == ToggleOption::Off,
    {
        ToggleOption::Off
    }
}

/// The toggle that was given, or off.
pub open spec fn toggle_or_off(t: Option<ToggleOption>) -> ToggleOption {
    match t {
        Some(v) => v,
        None => ToggleOption::Off,
    }
}

/// The configuration that the given fields describe.
pub open spec fn resolved(f: ConfigurationFields) -> Configuration {
    Configuration {
        providers: f.providers,
        start_date: f.start_date,
        end_date: f.end_date,
        combination_method: f.combination_method,
        list_prefix: f.list_prefix,
        filter_pld: toggle_or_off(f.filter_pld),
        inclusion_days: toggle_or_off(f.inclusion_days),
        inclusion_days_value: f.inclusion_days_value,
        inclusion_lists: toggle_or_off(f.inclusion_lists),
        inclusion_lists_value: f.inclusion_lists_value,
        filter_tld: f.filter_tld,
        filter_tld_value: f.filter_tld_value,
        filter_organization: toggle_or_off(f.filter_organization),
        filter_subdomain: toggle_or_off(f.filter_subdomain),
        filter_subdomain_value: f.filter_subdomain_value,
        filter_safe_browsing: toggle_or_off(f.filter_safe_browsing),
        filter_crux: toggle_or_off(f.filter_crux),
        filter_crux_month: f.filter_crux_month,
        filter_crux_type: f.filter_crux_type,
        filter_crux_value: f.filter_crux_value,
    }
}

fn toggle_given_or_off(t: Option<ToggleOption>) -> (r: ToggleOption)
    ensures
        r == toggle_or_off(t),
{
    match t {
        Some(v) => v,
        None => ToggleOption::default(),
    }
}

impl ConfigurationFields {
    /// Completes the configuration: a toggle that was not given is off.
    pub fn into_configuration(self) -> (r: Configuration)
        ensures
            r == resolved(self),
    {
        Configuration {
            providers: self.providers,
            start_date: self.start_date,
            end_date: self.end_date,
            combination_method: self.combination_method,
            list_prefix: self.list_prefix,
            filter_pld: toggle_given_or_off(self.filter_pld),
            inclusion_days: toggle_given_or_off(self.inclusion_days),
            inclusion_days_value: self.inclusion_days_value,
            inclusion_lists: toggle_given_or_off(self.inclusion_lists),
            inclusion_lists_value: self.inclusion_lists_value,
            filter_tld: self.filter_tld,
            filter_tld_value: self.filter_tld_value,
            filter_organization: toggle_given_or_off(self.filter_organization),
            filter_subdomain: toggle_given_or_off(self.filter_subdomain),
            filter_subdomain_value: self.filter_subdomain_value,
            filter_safe_browsing: toggle_given_or_off(self.filter_safe_browsing),
            filter_crux: toggle_given_or_off(self.filter_crux),
            filter_crux_month: self.filter_crux_month,
            filter_crux_type: self.filter_crux_type,
            filter_crux_value: self.filter_crux_value,
        }
    }
}

/// A configuration sent without any toggle or associated value has every toggle
/// off and every associated value absent.
pub proof fn lemma_absent_toggles_are_off(f: ConfigurationFields)
    requires
        f.filter_pld is None,
        f.inclusion_days is None,
        f.inclusion_days_value is None,
        f.inclusion_lists is None,
        f.inclusion_lists_value is None,
        f.filter_tld is None,
        f.filter_tld_value is None,
        f.filter_organization is None,
        f.filter_subdomain is None,
        f.filter_subdomain_value is None,
        f.filter_safe_browsing is None,
        f.filter_crux is None,
        f.filter_crux_month is None,
        f.filter_crux_type is None,
        f.filter_crux_value is None,
    ensures
        resolved(f).filter_pld == ToggleOption::Off,
        resolved(f).inclusion_days == ToggleOption::Off,
        resolved(f).inclusion_days_value is None,
        resolved(f).inclusion_lists == ToggleOption::Off,
        resolved(f).inclusion_lists_value is None,
        resolved(f).filter_tld is None,
        resolved(f).filter_tld_value is None,
        resolved(f).filter_organization == ToggleOption::Off,
        resolved(f).filter_subdomain == ToggleOption::Off,
        resolved(f).filter_subdomain_value is None,
        resolved(f).filter_safe_browsing == ToggleOption::Off,
        resolved(f).filter_crux == ToggleOption::Off,
        resolved(f).filter_crux_month is None,
        resolved(f).filter_crux_type is None,
        resolved(f).filter_crux_value is None,
{
}

/// Options for the `list_prefix` field.
#[derive(Clone, Copy, Debug, PartialEq, Eq, Structural)]
pub enum ListPrefix {
    Full,
    Length(u32),
}

/// Month specification for CrUX data.
#[derive(Clone, Debug, PartialEq, Eq)]
pub enum CruxMonth {
    Latest,
    /// Format: YYYYMM.
    Specific(String),
}

/// `a` and `b` hold the same characters.
pub fn same_text(a: &str, b: &str) -> (r: bool)
    ensures
        r == (a@ == b@),
{
    let n = a.unicode_len();
    if n != b.unicode_len() {
        return false;
    }
    let mut i: usize = 0;
    while i < n
        invariant
            i <= n,
            n == a@.len(),
            n == b@.len(),
            forall|j: int| 0 <= j < i ==> a@[j] == b@[j],
        decreases n - i,
    {
        if a.get_char(i) != b.get_char(i) {
            return false;
        }
        i = i + 1;
    }
    assert(a@ =~= b@);
    true
}

impl ListPrefix {
    /// Decodes the text form of a list prefix: `full`, or a number of entries.
    pub fn from_text(value: &str) -> (r: Result<ListPrefix, std::num::ParseIntError>)
        ensures
            value@ == "full"@ ==> r == Ok::<ListPrefix, std::num::ParseIntError>(ListPrefix::Full),
            value@ != "full"@ ==> (r is Ok <==> is_unsigned_text(value@, u32::MAX as nat)),
            value@ != "full"@ && r is Ok ==> r->Ok_0 == ListPrefix::Length(
                unsigned_value(value@) as u32,
            ),
    {
        if same_text(value, "full") {
            Ok(ListPrefix::Full)
        } else {
            match parse_u32(value) {
                Ok(n) => Ok(ListPrefix::Length(n)),
                Err(e) => Err(e),
            }
        }
    }

    /// Decodes the numeric form of a list prefix; a number that does not fit in a
    /// `u32` is refused, as its text form is.
    pub fn from_integer(value: u64) -> (r: Option<ListPrefix>)
        ensures
            value <= u32::MAX ==> r == Some(ListPrefix::Length(value as u32)),
            value > u32::MAX ==> r is None,
    {
        if value <= u32::MAX as u64 {
            Some(ListPrefix::Length(value as u32))
        } else {
            None
        }
    }
}

/// A month designator: six ASCII digits, YYYYMM, with no check of the calendar.
pub open spec fn is_month_text(s: Seq<char>) -> bool {
    s.len() == 6 && all_digits(s)
}

impl CruxMonth {
    /// Decodes `latest` or a month designator; any other text is refused.
    pub fn from_text(value: &str) -> (r: Option<CruxMonth>)
        ensures
            value@ == "latest"@ ==> r == Some(CruxMonth::Latest),
            value@ != "latest"@ ==> (r is Some <==> is_month_text(value@)),
            value@ != "latest"@ && r is Some ==> (r->0 is Specific && r->0->Specific_0@
                == value@),
    {
        proof {
            reveal_strlit("latest");
        }
        if same_text(value, "latest") {
            return Some(CruxMonth::Latest);
        }
        let n = value.unicode_len();
        if n != 6 {
            return None;
        }
        let mut i: usize = 0;
        while i < n
            invariant
                i <= n,
                n == value@.len(),
                value@ != "latest"@,
                forall|j: int| 0 <= j < i ==> '0' <= #[trigger] value@[j] && value@[j] <= '9',
            decreases n - i,
        {
            let c = value.get_char(i);
            if !('0' <= c && c <= '9') {
                return None;
            }
            i = i + 1;
        }
        Some(CruxMonth::Specific(value.to_owned()))
    }
}

} // verus!
