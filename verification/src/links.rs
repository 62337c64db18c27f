//! The deep links and URLs the tool prints or opens: work-system record
//! links, the instance base URL, and the browser-login callback pieces.

use crate::digits::{dec_digits, dec_string};
use vstd::prelude::*;
use vstd::string::StrSliceExecFns;
use vstd::string::StringExecFns;

verus! {

/// The deep link to a ticket.
pub fn ticket_link(sn_instance: &str, sys_id: &str) -> (r: String)
    ensures
        r@ == "https://"@ + sn_instance@ + ".service-now.com/task.do?sys_id="@ + sys_id@,
{
    let r = "https://".to_owned().concat(sn_instance).concat(".service-now.com/task.do?sys_id=")
        .concat(sys_id);
    proof {
        assert(r@ =~= "https://"@ + sn_instance@ + ".service-now.com/task.do?sys_id="@ + sys_id@);
    }
    r
}

/// The deep link to a created requested item.
pub fn req_item_link(sn_instance: &str, sys_id: &str) -> (r: String)
    ensures
        r@ == "https://"@ + sn_instance@ + ".service-now.com/sc_req_item.do?sys_id="@ + sys_id@,
{
    let r = "https://".to_owned().concat(sn_instance).concat(
        ".service-now.com/sc_req_item.do?sys_id=",
    ).concat(sys_id);
    proof {
        assert(r@ =~= "https://"@ + sn_instance@ + ".service-now.com/sc_req_item.do?sys_id="@
            + sys_id@);
    }
    r
}

/// The deep link to a created change request.
pub fn chg_link(sn_instance: &str, sys_id: &str) -> (r: String)
    ensures
        r@ == "https://"@ + sn_instance@ + ".service-now.com/change_request.do?sys_id="@ + sys_id@,
{
    let r = "https://".to_owned().concat(sn_instance).concat(
        ".service-now.com/change_request.do?sys_id=",
    ).concat(sys_id);
    proof {
        assert(r@ =~= "https://"@ + sn_instance@ + ".service-now.com/change_request.do?sys_id="@
            + sys_id@);
    }
    r
}

/// The work system's base URL for an instance name.
pub fn instance_base_url(sn_instance: &str) -> (r: String)
    ensures
        r@ == "https://"@ + sn_instance@ + ".service-now.com"@,
{
    let r = "https://".to_owned().concat(sn_instance).concat(".service-now.com");
    proof {
        assert(r@ =~= "https://"@ + sn_instance@ + ".service-now.com"@);
    }
    r
}

/// The login URL that sends the browser back to the ephemeral local
/// listener on the chosen port.
pub fn login_redirect_url(instance_url: &str, port: u16) -> (r: String)
    ensures
        r@ == instance_url@ + "/cli/login/redirect/"@ + dec_digits(port as int),
{
    let r = instance_url.to_owned().concat("/cli/login/redirect/").concat(
        dec_string(port as u64).as_str(),
    );
    proof {
        assert(r@ =~= instance_url@ + "/cli/login/redirect/"@ + dec_digits(port as int));
    }
    r
}

/// The session token carried in the callback request's path: everything
/// after the leading slash.
pub fn session_from_callback_path(path: &str) -> (r: String)
    requires
        path@.len() >= 1,
    ensures
        r@ == path@.skip(1),
{
    let len = path.unicode_len();
    let r = path.substring_char(1, len).to_owned();
    proof {
        assert(r@ =~= path@.skip(1));
    }
    r
}

} // verus!
