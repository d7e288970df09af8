//! Assembling outbound mail: the decision of whether and what to send,
//! from the settings singleton. The transport that delivers the job is an
//! outside concern.
use crate::item::Item;
use crate::item::ItemView;
use vstd::prelude::*;
use vstd::string::StringSliceAdditionalSpecFns;

verus! {

/// A fully assembled outbound message with its transport coordinates.
pub struct EmailJob {
    pub server: String,
    pub login: String,
    pub password: String,
    pub from: String,
    pub to: String,
    pub subject: String,
    pub body: String,
}

/// A string attribute of a record, or empty when absent.
pub open spec fn str_or_empty(v: ItemView, key: Seq<char>) -> Seq<char> {
    if v.strs.contains_key(key) {
        v.strs[key]
    } else {
        Seq::empty()
    }
}

/// Assemble an outbound message from the settings singleton: a job comes
/// back exactly when the recipient and all four transport settings
/// (server, login, password, sender) are non-empty, and it carries those
/// values with the given subject and body verbatim.
pub fn email_request(settings: &Item, to: &str, subject: &str, body: &str) -> (r: Option<
    EmailJob,
>)
    requires
        settings.inv(),
    ensures
        ({
            let v = settings.deep_view();
            &&& (r is Some <==> (to@.len() > 0 && str_or_empty(v, "smtp_server"@).len() > 0
                && str_or_empty(v, "smtp_login"@).len() > 0 && str_or_empty(
                v,
                "smtp_password"@,
            ).len() > 0 && str_or_empty(v, "smtp_from"@).len() > 0))
            &&& (r matches Some(j) ==> j.server@ == str_or_empty(v, "smtp_server"@) && j.login@
                == str_or_empty(v, "smtp_login"@) && j.password@ == str_or_empty(
                v,
                "smtp_password"@,
            ) && j.from@ == str_or_empty(v, "smtp_from"@) && j.to@ == to@ && j.subject@ == subject@
                && j.body@ == body@)
        }),
{
    proof {
        reveal_strlit("");
    }
    let smtp_server = settings.safe_str("smtp_server", "");
    let smtp_login = settings.safe_str("smtp_login", "");
    let smtp_password = settings.safe_str("smtp_password", "");
    let smtp_from = settings.safe_str("smtp_from", "");
    if to.is_empty() || smtp_server.as_str().is_empty() || smtp_login.as_str().is_empty()
        || smtp_password.as_str().is_empty() || smtp_from.as_str().is_empty() {
        return None;
    }
    Some(
        EmailJob {
            server: smtp_server,
            login: smtp_login,
            password: smtp_password,
            from: smtp_from,
            to: to.to_owned(),
            subject: subject.to_owned(),
            body: body.to_owned(),
        },
    )
}

/// The contact-form mail: the site operator's address from the settings,
/// the subject naming topic and sender, the body carrying the submitted
/// fields verbatim.
pub fn web_contact(settings: &Item, form: &Item) -> (r: Option<EmailJob>)
    requires
        settings.inv(),
        form.inv(),
    ensures
        ({
            let sv = settings.deep_view();
            let fv = form.deep_view();
            let to = str_or_empty(sv, "web_contact_email"@);
            &&& (r is Some <==> (to.len() > 0 && str_or_empty(sv, "smtp_server"@).len() > 0
                && str_or_empty(sv, "smtp_login"@).len() > 0 && str_or_empty(
                sv,
                "smtp_password"@,
            ).len() > 0 && str_or_empty(sv, "smtp_from"@).len() > 0))
            &&& (r matches Some(j) ==> j.to@ == to && j.subject@ == "Website: "@ + str_or_empty(
                fv,
                "topic"@,
            ) + " ("@ + str_or_empty(fv, "from_name"@) + ")"@ && j.body@ == "From: "@
                + str_or_empty(fv, "from_email"@) + "\nName: "@ + str_or_empty(fv, "from_name"@)
                + "\nTopic: "@ + str_or_empty(fv, "topic"@) + "\n\n"@ + str_or_empty(
                fv,
                "message"@,
            ))
        }),
{
    proof {
        reveal_strlit("");
    }
    let from_email = form.safe_str("from_email", "");
    let from_name = form.safe_str("from_name", "");
    let topic = form.safe_str("topic", "");
    let message = form.safe_str("message", "");
    let to_email = settings.safe_str("web_contact_email", "");
    let mut subject = String::from_str("Website: ");
    subject.append(topic.as_str());
    subject.append(" (");
    subject.append(from_name.as_str());
    subject.append(")");
    let mut body = String::from_str("From: ");
    body.append(from_email.as_str());
    body.append("\nName: ");
    body.append(from_name.as_str());
    body.append("\nTopic: ");
    body.append(topic.as_str());
    body.append("\n\n");
    body.append(message.as_str());
    email_request(settings, to_email.as_str(), subject.as_str(), body.as_str())
}

} // verus!
