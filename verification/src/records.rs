//! The plain data records the tool moves between its collaborators and its
//! logic: configuration, command shapes, tickets, and the work system's
//! result rows.

use crate::text::str_eq;
use vstd::prelude::*;
use vstd::string::StrSliceExecFns;

verus! {

/// The persisted configuration record: identities and the default bin.
#[derive(Debug, Default, Clone, PartialEq, Eq)]
pub struct Config {
    pub id: String,
    pub instance: String,
    pub sn_instance: String,
    pub sn_username: String,
    pub sn_password: String,
    pub bin: String,
}

impl Config {
    /// Replace the session id after a fresh browser login, leaving every
    /// other field as it was.
    pub fn set_new_id(&mut self, id: &str)
        ensures
            final(self).id@ == id@,
            final(self).instance == old(self).instance,
            final(self).sn_instance == old(self).sn_instance,
            final(self).sn_username == old(self).sn_username,
            final(self).sn_password == old(self).sn_password,
            final(self).bin == old(self).bin,
    {
        self.id = id.to_owned();
    }
}

/// The subcommands and their flags, already parsed into plain values.
#[derive(Debug, Clone)]
pub enum Commands {
    Timetrack {
        new: bool,
        all: bool,
        comment: String,
        time_worked: String,
        search: Option<String>,
        bin: Option<String>,
        no_tkt: bool,
    },
    Report {
        user: Option<String>,
        since: Option<String>,
        until: Option<String>,
        today: bool,
        top: Option<usize>,
    },
    StdChg { search: Option<String>, bin: Option<String>, template_id: Option<String> },
    Setup {
        id: String,
        instance: String,
        sn_instance: String,
        sn_username: String,
        sn_password: String,
        bin: Option<String>,
    },
}

/// A ticket as the ticket index reports it.
#[derive(Debug, Clone, PartialEq, Eq)]
pub struct Ticket {
    pub comments: String,
    pub work_notes: String,
    pub description: String,
    pub short_description: String,
    pub active: String,
    pub assigned_to: String,
    pub assignment_group: String,
    pub sys_created_on: String,
    pub id: String,
    pub self_link: String,
    pub priority: String,
    pub number: String,
    pub type_: String,
}

/// A work-system response envelope.
#[derive(Debug, Clone)]
pub struct SNResult<T = ServiceNowResultResponse> {
    pub result: T,
}

/// The result payloads the work system hands back.
#[derive(Debug, Clone)]
pub enum ServiceNowResultResponse {
    User(Vec<UserGroupResult>),
    SysId(SysIdResult),
    SysIds(Vec<SysIdResult>),
    CHG(CHGCreation),
    TimeWorked(TimeWorked),
}

/// An identifier row, optionally carrying a display name.
#[derive(Debug, Clone, PartialEq, Eq)]
pub struct SysIdResult {
    pub sys_id: String,
    pub sys_name: Option<String>,
}

/// The row naming a user's default group.
#[derive(Debug, Clone, PartialEq, Eq)]
pub struct UserGroupResult {
    pub default_group: String,
}

/// The payload for creating a ticket.
#[derive(Debug, Clone, PartialEq, Eq)]
pub struct TicketCreation {
    pub assignment_group: String,
    pub short_description: String,
    pub description: String,
    pub configuration_item: Option<String>,
    pub type_: Option<String>,
    pub priority: Option<String>,
    pub item: Option<String>,
    pub sla_type: Option<String>,
}

impl TicketCreation {
    /// The fixed requested-item payload: the description doubles as the
    /// short description, with the class, priority and SLA type the tool
    /// always uses.
    pub fn request_item(assignment_group: &str, description: &str) -> (r: TicketCreation)
        ensures
            r.assignment_group@ == assignment_group@,
            r.short_description@ == description@,
            r.description@ == description@,
            r.configuration_item is None,
            r.type_ matches Some(t) && t@ == "sc_req_item"@,
            r.priority matches Some(p) && p@ == "4"@,
            r.item is None,
            r.sla_type matches Some(s) && s@ == "server_specific"@,
    {
        TicketCreation {
            assignment_group: assignment_group.to_owned(),
            short_description: description.to_owned(),
            description: description.to_owned(),
            configuration_item: None,
            type_: Some("sc_req_item".to_owned()),
            priority: Some("4".to_owned()),
            item: None,
            sla_type: Some("server_specific".to_owned()),
        }
    }
}

/// A created change request: its identifier pair.
#[derive(Debug, Clone)]
pub struct CHGCreation {
    pub sys_id: DisplayAndValue,
}

/// A display string paired with the underlying value.
#[derive(Debug, Clone, PartialEq, Eq)]
pub struct DisplayAndValue {
    pub display_value: String,
    pub value: String,
}

/// A display string paired with a link.
#[derive(Debug, Clone, PartialEq, Eq)]
pub struct DisplayAndLink {
    pub display_value: String,
    pub link: String,
}

/// A link paired with the underlying value.
#[derive(Debug, Clone, PartialEq, Eq)]
pub struct LinkAndValue {
    pub link: String,
    pub value: String,
}

/// A time-entry's task reference: a full identifier pair, or the empty
/// string for entries carrying only a category.
#[derive(Debug, Clone)]
pub enum TimeWorkedTask {
    DisplayAndValue(DisplayAndValue),
    EmptyString(String),
}

/// One raw time entry: seconds worked as decimal text, the task it is
/// attached to (empty for none), and its category key.
#[derive(Debug, Clone, PartialEq, Eq)]
pub struct TimeWorked {
    pub time_in_seconds: String,
    pub task: String,
    pub category: String,
}

/// The fixed projection from raw category keys to display names; unknown
/// keys pass through verbatim.
pub open spec fn nice_name(category: Seq<char>) -> Seq<char> {
    if category == "certs_prodev_training"@ {
        "Training"@
    } else if category == "clerical"@ {
        "Clerical"@
    } else if category == "univ_events"@ {
        "University Events"@
    } else {
        category
    }
}

impl TimeWorked {
    /// The display name of this entry's category.
    pub fn get_nice_name_category(&self) -> (r: String)
        ensures
            r@ == nice_name(self.category@),
    {
        if str_eq(self.category.as_str(), "certs_prodev_training") {
            "Training".to_owned()
        } else if str_eq(self.category.as_str(), "clerical") {
            "Clerical".to_owned()
        } else if str_eq(self.category.as_str(), "univ_events") {
            "University Events".to_owned()
        } else {
            self.category.as_str().to_owned()
        }
    }
}

/// A cost-center row: the center's identifier pair and the task it bills.
#[derive(Debug, Clone, PartialEq, Eq)]
pub struct CostCenter {
    pub cost_center: DisplayAndValue,
    pub task: DisplayAndValue,
}

} // verus!
