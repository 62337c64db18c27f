//! Ticket resolution: which of the mutually exclusive modes a timetrack
//! invocation runs in, the selection list shown to the user, and how a
//! chosen display line is matched back to its ticket.

use crate::records::{SysIdResult, Ticket};
use crate::text::{is_prefix, str_eq, str_starts_with};
use vstd::prelude::*;
use vstd::string::StrSliceExecFns;
use vstd::string::StringExecFns;

verus! {

/// A selectable result: its backing value and the display string shown.
#[derive(Debug, Clone, PartialEq, Eq)]
pub struct ValueOption {
    pub value: String,
    pub display_value: String,
}

/// A selectable search or listing result.
pub trait ChooseOptions<T> {
    /// The full display line.
    spec fn spec_debug_string(&self) -> Seq<char>;

    /// The backing identifier.
    spec fn spec_id(&self) -> Seq<char>;

    /// The short display value, the line's unique leading part.
    spec fn spec_number(&self) -> Seq<char>;

    fn get_debug_string(&self) -> (r: String)
        ensures
            r@ == self.spec_debug_string(),
    ;

    fn get_id(&self) -> (r: String)
        ensures
            r@ == self.spec_id(),
    ;

    fn get_number(&self) -> (r: String)
        ensures
            r@ == self.spec_number(),
    ;
}

impl ChooseOptions<Ticket> for Ticket {
    open spec fn spec_debug_string(&self) -> Seq<char> {
        self.number@ + ": "@ + self.short_description@
    }

    open spec fn spec_id(&self) -> Seq<char> {
        self.id@
    }

    open spec fn spec_number(&self) -> Seq<char> {
        self.number@
    }

    fn get_debug_string(&self) -> (r: String) {
        let r = self.number.clone().concat(": ").concat(self.short_description.as_str());
        proof {
            assert(r@ =~= self.spec_debug_string());
        }
        r
    }

    fn get_id(&self) -> (r: String) {
        self.id.clone()
    }

    fn get_number(&self) -> (r: String) {
        self.number.clone()
    }
}

/// Map each result to its value and display pair.
pub fn generic_options_to_value_option<T: ChooseOptions<T>>(result: &Vec<T>) -> (r: Vec<
    ValueOption,
>)
    ensures
        r@.len() == result@.len(),
        forall|i: int|
            0 <= i < result@.len() ==> (#[trigger] r@[i]).display_value@
                == result@[i].spec_number() && r@[i].value@ == result@[i].spec_id(),
{
    let mut value_vec: Vec<ValueOption> = Vec::new();
    let n = result.len();
    let mut i: usize = 0;
    while i < n
        invariant
            i <= n,
            n == result@.len(),
            value_vec@.len() == i,
            forall|j: int|
                0 <= j < i ==> (#[trigger] value_vec@[j]).display_value@
                    == result@[j].spec_number() && value_vec@[j].value@ == result@[j].spec_id(),
        decreases n - i,
    {
        let val_opt = ValueOption {
            display_value: result[i].get_number(),
            value: result[i].get_id(),
        };
        value_vec.push(val_opt);
        i = i + 1;
    }
    value_vec
}

/// Map each result to its display line.
pub fn search_results_to_string<T: ChooseOptions<T>>(result: &Vec<T>) -> (r: Vec<String>)
    ensures
        r@.len() == result@.len(),
        forall|i: int|
            0 <= i < result@.len() ==> (#[trigger] r@[i])@ == result@[i].spec_debug_string(),
{
    let mut string_vec: Vec<String> = Vec::new();
    let n = result.len();
    let mut i: usize = 0;
    while i < n
        invariant
            i <= n,
            n == result@.len(),
            string_vec@.len() == i,
            forall|j: int|
                0 <= j < i ==> (#[trigger] string_vec@[j])@ == result@[j].spec_debug_string(),
        decreases n - i,
    {
        string_vec.push(result[i].get_debug_string());
        i = i + 1;
    }
    string_vec
}

/// The selection list as presented: the results' lines, then the two
/// synthetic choices.
pub fn options_with_synthetic(options: Vec<String>) -> (r: Vec<String>)
    ensures
        r@.len() == options@.len() + 2,
        forall|i: int| 0 <= i < options@.len() ==> r@[i] == options@[i],
        r@[options@.len() as int]@ == "New ticket"@,
        r@[options@.len() as int + 1]@ == "Cancel"@,
{
    let mut r = options;
    r.push("New ticket".to_owned());
    r.push("Cancel".to_owned());
    r
}

/// Index of the first option whose display value begins the input, or -1:
/// the disambiguation rule for matching a chosen line back to its ticket.
pub open spec fn first_prefix_match(opts: Seq<ValueOption>, input: Seq<char>) -> int
    decreases opts.len(),
{
    if opts.len() == 0 {
        -1
    } else if is_prefix(opts[0].display_value@, input) {
        0
    } else {
        let r = first_prefix_match(opts.drop_first(), input);
        if r < 0 {
            -1
        } else {
            r + 1
        }
    }
}

/// A scan that saw no match up to `k` (and one at `k`, or the end) pins
/// down `first_prefix_match`.
pub proof fn lemma_first_prefix_match_at(opts: Seq<ValueOption>, input: Seq<char>, k: int)
    requires
        0 <= k <= opts.len(),
        forall|j: int| 0 <= j < k ==> !is_prefix((#[trigger] opts[j]).display_value@, input),
        k == opts.len() || is_prefix(opts[k].display_value@, input),
    ensures
        first_prefix_match(opts, input) == if k == opts.len() {
            -1int
        } else {
            k
        },
    decreases opts.len(),
{
    if opts.len() > 0 && k > 0 {
        lemma_first_prefix_match_at(opts.drop_first(), input, k - 1);
    }
}

/// The first option whose display value is a prefix of the input.
pub fn get_search_result_from_input(input: &str, result: Vec<ValueOption>) -> (r: Option<
    ValueOption,
>)
    ensures
        ({
            let m = first_prefix_match(result@, input@);
            match r {
                Some(v) => m >= 0 && v == result@[m],
                None => m == -1,
            }
        }),
{
    let n = result.len();
    let mut i: usize = 0;
    while i < n
        invariant
            i <= n,
            n == result@.len(),
            forall|j: int|
                0 <= j < i ==> !is_prefix((#[trigger] result@[j]).display_value@, input@),
        decreases n - i,
    {
        if str_starts_with(input, result[i].display_value.as_str()) {
            proof {
                lemma_first_prefix_match_at(result@, input@, i as int);
            }
            let mut result = result;
            let chosen = result.remove(i);
            return Some(chosen);
        }
        i = i + 1;
    }
    proof {
        lemma_first_prefix_match_at(result@, input@, n as int);
    }
    None
}

/// What a choice from the selection list decides.
#[derive(Debug, Clone, PartialEq, Eq)]
pub enum Selection {
    /// "Cancel": the command ends successfully with no backend call.
    Cancelled,
    /// "New ticket": fall through to ticket creation.
    NewTicket,
    /// A listed ticket, matched back by the prefix rule.
    Existing { sys_id: String },
    /// The chosen line matched nothing — an unexpected input.
    Unmatched,
}

/// Decide what a chosen line from the selection list means. "Cancel" and
/// "New ticket" are checked before any prefix match, so cancelling never
/// reaches a ticket; any other line is matched back to the first option
/// whose display value begins it.
pub fn decide_selection(item: &str, options: Vec<ValueOption>) -> (r: Selection)
    ensures
        item@ == "Cancel"@ ==> r is Cancelled,
        item@ != "Cancel"@ && item@ == "New ticket"@ ==> r is NewTicket,
        item@ != "Cancel"@ && item@ != "New ticket"@ ==> ({
            let m = first_prefix_match(options@, item@);
            if m >= 0 {
                r matches Selection::Existing { sys_id } && sys_id@ == options@[m].value@
            } else {
                r is Unmatched
            }
        }),
{
    if str_eq(item, "Cancel") {
        return Selection::Cancelled;
    }
    if str_eq(item, "New ticket") {
        return Selection::NewTicket;
    }
    match get_search_result_from_input(item, options) {
        Some(tkt) => Selection::Existing { sys_id: tkt.value },
        None => Selection::Unmatched,
    }
}

/// What the auth-refresh protocol does after a session check.
#[derive(Debug, Clone, Copy, PartialEq, Eq, Structural)]
pub enum AuthAction {
    /// The session is valid: go on with the search.
    Proceed,
    /// The first failure: obtain a fresh session through the browser,
    /// persist it, and check again.
    RefreshAndRetry,
    /// A failure after the one refresh: fatal.
    Fail,
}

/// One step of the auth-refresh protocol: a passing check always proceeds;
/// a failing check triggers the browser refresh exactly once, and a second
/// failure is fatal.
pub fn auth_refresh_step(check_ok: bool, already_refreshed: bool) -> (r: AuthAction)
    ensures
        check_ok ==> r is Proceed,
        !check_ok && !already_refreshed ==> r is RefreshAndRetry,
        !check_ok && already_refreshed ==> r is Fail,
{
    if check_ok {
        AuthAction::Proceed
    } else if !already_refreshed {
        AuthAction::RefreshAndRetry
    } else {
        AuthAction::Fail
    }
}

/// What a finished resolution hands the time-entry call: a ticket to attach
/// to, or a category key for a no-ticket entry. The two drive two distinct
/// backend operations, so the choice is tagged, never a nullable ticket id.
#[derive(Debug, Clone, PartialEq, Eq)]
pub enum TimeTarget {
    Ticket { sys_id: String },
    Category { key: String },
}

/// The resolved mode of a timetrack invocation, the flags already applied
/// in their priority order.
#[derive(Debug, Clone)]
pub enum TimetrackMode {
    /// Attach the time to a category instead of a ticket.
    NoTicket,
    /// Create a ticket and attach the time to it.
    CreateNew,
    /// List every ticket in the bin and let the user choose.
    All { bin: String },
    /// Search the ticket index by keyword and let the user choose.
    SearchExisting { keywords: String, bin: String },
}

/// The bin a command works against: the override where given, else the
/// configured default.
pub open spec fn effective_bin(bin: Option<String>, default_bin: Seq<char>) -> Seq<char> {
    match bin {
        Some(b) => b@,
        None => default_bin,
    }
}

/// Apply the mutually exclusive mode flags in their priority order:
/// no-ticket first, then creation, then the bin listing, else the keyword
/// search with an empty default keyword.
pub fn select_mode(
    new: bool,
    all: bool,
    no_tkt: bool,
    search: Option<String>,
    bin: Option<String>,
    default_bin: &str,
) -> (r: TimetrackMode)
    ensures
        no_tkt ==> r is NoTicket,
        !no_tkt && new ==> r is CreateNew,
        !no_tkt && !new && all ==> (r matches TimetrackMode::All { bin: b } && b@ == effective_bin(
            bin,
            default_bin@,
        )),
        !no_tkt && !new && !all ==> (r matches TimetrackMode::SearchExisting {
            keywords: k,
            bin: b,
        } && b@ == effective_bin(bin, default_bin@) && k@ == (match search {
            Some(s) => s@,
            None => ""@,
        })),
{
    if no_tkt {
        return TimetrackMode::NoTicket;
    }
    if new {
        return TimetrackMode::CreateNew;
    }
    let tkt_bin = match bin {
        Some(b) => b,
        None => default_bin.to_owned(),
    };
    if all {
        return TimetrackMode::All { bin: tkt_bin };
    }
    let keywords = match search {
        Some(s) => s,
        None => "".to_owned(),
    };
    TimetrackMode::SearchExisting { keywords, bin: tkt_bin }
}

/// The category prompt's display lines, in their fixed order.
pub fn category_options() -> (r: Vec<String>)
    ensures
        r@.len() == 3,
        r@[0]@
            == "Certs, Pro Dev, Training: Conferences, Studying or Taking Certifications, Webinars, On-boarding, or Employee to Employee Training"@,
        r@[1]@ == "University Events: Convocation, You Matter"@,
        r@[2]@ == "Clerical: Email, Operational Meetings, & Paperwork that cannot be tied to a task"@,
{
    let mut options: Vec<String> = Vec::new();
    options.push(
        "Certs, Pro Dev, Training: Conferences, Studying or Taking Certifications, Webinars, On-boarding, or Employee to Employee Training".to_owned(),
    );
    options.push("University Events: Convocation, You Matter".to_owned());
    options.push(
        "Clerical: Email, Operational Meetings, & Paperwork that cannot be tied to a task".to_owned(),
    );
    options
}

/// The machine key the prompt's index maps to, paired with the display
/// line of the same index.
pub open spec fn category_key_spec(selection: int) -> Seq<char> {
    if selection == 0 {
        "certs_prodev_training"@
    } else if selection == 1 {
        "univ_events"@
    } else {
        "clerical"@
    }
}

/// The machine key for a chosen category index, passed through unchanged
/// to the no-ticket time entry.
pub fn category_key_for_choice(selection: usize) -> (r: String)
    requires
        selection < 3,
    ensures
        r@ == category_key_spec(selection as int),
{
    if selection == 0 {
        "certs_prodev_training".to_owned()
    } else if selection == 1 {
        "univ_events".to_owned()
    } else {
        "clerical".to_owned()
    }
}

/// What the template prompt shows for one row: its display name.
pub open spec fn template_name(t: SysIdResult) -> Seq<char> {
    match t.sys_name {
        Some(n) => n@,
        None => Seq::empty(),
    }
}

/// The template prompt's display lines, one per template row.
pub fn chg_template_options(chg_templates: &Vec<SysIdResult>) -> (r: Vec<String>)
    requires
        forall|i: int| 0 <= i < chg_templates@.len() ==> (#[trigger] chg_templates@[i]).sys_name
            is Some,
    ensures
        r@.len() == chg_templates@.len(),
        forall|i: int|
            0 <= i < chg_templates@.len() ==> (#[trigger] r@[i])@ == template_name(
                chg_templates@[i],
            ),
{
    let mut options: Vec<String> = Vec::new();
    let n = chg_templates.len();
    let mut i: usize = 0;
    while i < n
        invariant
            i <= n,
            n == chg_templates@.len(),
            options@.len() == i,
            forall|j: int|
                0 <= j < chg_templates@.len() ==> (#[trigger] chg_templates@[j]).sys_name is Some,
            forall|j: int|
                0 <= j < i ==> (#[trigger] options@[j])@ == template_name(chg_templates@[j]),
        decreases n - i,
    {
        match &chg_templates[i].sys_name {
            Some(name) => {
                options.push(name.clone());
            },
            None => {
                proof {
                    assert(false);
                }
            },
        }
        i = i + 1;
    }
    options
}

/// The identifier of the template at a chosen index.
pub fn chg_template_at(chg_templates: &Vec<SysIdResult>, selection: usize) -> (r: String)
    requires
        selection < chg_templates@.len(),
    ensures
        r@ == chg_templates@[selection as int].sys_id@,
{
    chg_templates[selection].sys_id.clone()
}

} // verus!
