//! The notification at the end of a run: whether one goes out, and with
//! what.

use vstd::prelude::*;
use crate::text::concat;

verus! {

/// Who the notification comes from, and whom an answer goes to.
pub const SENDER: &'static str = "PyFeX <PyFex@canterbury.ac.nz>";

/// The subject of the notification.
pub const SUBJECT: &'static str = "Experiment Notification";

/// The text of the notification.
pub const BODY: &'static str = "Experimental Results Attached!";

/// The host that relays the notification.
pub const RELAY: &'static str = "smtphost.canterbury.ac.nz";

/// What to do about the notification of a run.
#[derive(Debug, Clone, PartialEq)]
pub enum MailPlan {
    /// Nobody asked for one.
    Skip,
    /// The run has produced no file: say why, and send nothing.
    Withhold { reason: String },
    /// Send the file at `path` to `to`, attached under `name`.
    Send { to: String, path: String, name: String },
}

/// What a `MailPlan` holds.
pub enum MailPlanView {
    Skip,
    Withhold { reason: Seq<char> },
    Send { to: Seq<char>, path: Seq<char>, name: Seq<char> },
}

impl View for MailPlan {
    type V = MailPlanView;

    open spec fn view(&self) -> MailPlanView {
        match self {
            MailPlan::Skip => MailPlanView::Skip,
            MailPlan::Withhold { reason } => MailPlanView::Withhold { reason: reason@ },
            MailPlan::Send { to, path, name } => MailPlanView::Send {
                to: to@,
                path: path@,
                name: name@,
            },
        }
    }
}

/// The notification of a run: none where no address is given; none, with
/// the reason, where the run has produced no file; else the file of that
/// name in the directory `file_path`, to the address given.
pub open spec fn planned(
    email_adr: Option<Seq<char>>,
    file_path: Seq<char>,
    file_name: Result<Seq<char>, Seq<char>>,
) -> MailPlanView {
    match email_adr {
        None => MailPlanView::Skip,
        Some(to) => match file_name {
            Err(reason) => MailPlanView::Withhold { reason },
            Ok(name) => MailPlanView::Send { to, path: file_path + "/"@ + name, name },
        },
    }
}

/// The characters of an address that may be absent.
pub open spec fn address_of(email_adr: Option<&String>) -> Option<Seq<char>> {
    match email_adr {
        Some(to) => Some(to@),
        None => None,
    }
}

/// The characters of a file name, or of the reason why there is none.
pub open spec fn produced_of(file_name: &Result<String, String>) -> Result<Seq<char>, Seq<char>> {
    match file_name {
        Ok(name) => Ok(name@),
        Err(reason) => Err(reason@),
    }
}

/// Plans the notification of a run, once per run: to the address given, if
/// one is, with the file that the run has produced, if it has one.
pub fn mailer(email_adr: Option<&String>, file_path: &str, file_name: &Result<String, String>) -> (plan:
    MailPlan)
    ensures
        plan@ == planned(address_of(email_adr), file_path@, produced_of(file_name)),
{
    match email_adr {
        None => MailPlan::Skip,
        Some(to) => match file_name {
            Err(reason) => MailPlan::Withhold { reason: reason.clone() },
            Ok(name) => {
                let mut path = concat(file_path, "/");
                path.append(name.as_str());
                MailPlan::Send { to: to.clone(), path, name: name.clone() }
            },
        },
    }
}

} // verus!
