use vstd::prelude::*;

verus! {

/// The standard mail submission port, used when none is configured.
pub const DEFAULT_SMTP_PORT: u16 = 587;

/// Mail-relay settings as they arrive from configuration; optional fields
/// fall back to fixed defaults when resolved.
#[derive(Debug, Clone, PartialEq, Eq)]
pub struct JsonSmtp {
    pub hostname: String,
    pub port: Option<u16>,
    pub starttls: Option<bool>,
    pub username: String,
    pub secret: String,
    pub from_name: String,
    pub from_email: String,
}

/// Resolved mail-relay settings.
#[derive(Debug, Clone, PartialEq, Eq)]
pub struct Email {
    pub hostname: String,
    pub port: u16,
    pub starttls: bool,
    pub username: String,
    pub secret: String,
    pub from_name: Option<String>,
    pub from_email: String,
}

impl vstd::std_specs::convert::FromSpecImpl<JsonSmtp> for Email {
    open spec fn obeys_from_spec() -> bool {
        true
    }

    open spec fn from_spec(smtp: JsonSmtp) -> Email {
        Email {
            hostname: smtp.hostname,
            port: match smtp.port {
                Some(p) => p,
                None => DEFAULT_SMTP_PORT,
            },
            starttls: match smtp.starttls {
                Some(s) => s,
                None => true,
            },
            username: smtp.username,
            secret: smtp.secret,
            from_name: Some(smtp.from_name),
            from_email: smtp.from_email,
        }
    }
}

impl From<JsonSmtp> for Email {
    /// A missing port falls back to the standard submission port, STARTTLS
    /// defaults to on, and the configured sender name is always carried.
    fn from(smtp: JsonSmtp) -> (r: Email) {
        let JsonSmtp { hostname, port, starttls, username, secret, from_name, from_email } = smtp;
        Email {
            hostname,
            port: match port {
                Some(p) => p,
                None => DEFAULT_SMTP_PORT,
            },
            starttls: match starttls {
                Some(s) => s,
                None => true,
            },
            username,
            secret,
            from_name: Some(from_name),
            from_email,
        }
    }
}

/// A rendered message body, in both shapes the relay accepts.
#[derive(Debug, Clone, PartialEq, Eq)]
pub struct MessageBody {
    pub text: String,
    pub html: String,
}

/// One outbound message as the rest of the system describes it.
#[derive(Debug, Clone, PartialEq, Eq)]
pub struct Message {
    pub to_name: Option<String>,
    pub to_email: String,
    pub subject: Option<String>,
    pub body: Option<MessageBody>,
}

/// Everything the relay client needs for one send, fully decided: who the
/// message is from and to, and which optional parts it carries.
#[derive(Debug, Clone, PartialEq, Eq)]
pub struct MessagePlan {
    pub from_name: Option<String>,
    pub from_email: String,
    pub to_name: Option<String>,
    pub to_email: String,
    pub subject: Option<String>,
    pub text_body: Option<String>,
    pub html_body: Option<String>,
}

/// Decides one send: the sender identity comes from the resolved settings,
/// the recipient and optional subject from the message, and both body
/// shapes are attached exactly when a body was rendered.
pub fn plan_message(email: &Email, message: Message) -> (r: MessagePlan)
    ensures
        r.from_name == email.from_name,
        r.from_email == email.from_email,
        r.to_name == message.to_name,
        r.to_email == message.to_email,
        r.subject == message.subject,
        message.body matches Some(b) ==> r.text_body == Some(b.text) && r.html_body == Some(
            b.html,
        ),
        message.body is None ==> r.text_body is None && r.html_body is None,
{
    let Message { to_name, to_email, subject, body } = message;
    let (text_body, html_body) = match body {
        Some(b) => (Some(b.text), Some(b.html)),
        None => (None, None),
    };
    MessagePlan {
        from_name: email.from_name.clone(),
        from_email: email.from_email.clone(),
        to_name,
        to_email,
        subject,
        text_body,
        html_body,
    }
}

} // verus!
