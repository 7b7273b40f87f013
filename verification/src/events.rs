//! What happens in the server, for those that want to know.

use vstd::prelude::*;
use crate::data::Data;
use crate::text;

verus! {

/// The plain values of a [`Event`].
#[verifier::ext_equal]
pub enum EventView {
    ConfigReloaded,
    ConfigReloadFailed { error: Seq<char> },
    CertIssued { domain: Seq<char> },
    CertRenewalFailed { domain: Seq<char>, error: Seq<char> },
    UpstreamHealthChanged { address: Seq<char>, healthy: bool },
    ShutdownInitiated,
    Custom { name: Seq<char>, data: Seq<char> },
}

/// What happened.
#[derive(Debug, PartialEq, Eq)]
pub enum Event {
    /// Configuration was reloaded successfully.
    ConfigReloaded,
    /// Configuration reload failed.
    ConfigReloadFailed {
        error: String,
    },
    /// A TLS certificate was issued or renewed.
    CertIssued {
        domain: String,
    },
    /// A TLS certificate renewal failed.
    CertRenewalFailed {
        domain: String,
        error: String,
    },
    /// An upstream backend changed health status.
    UpstreamHealthChanged {
        address: String,
        healthy: bool,
    },
    /// The server is shutting down.
    ShutdownInitiated,
    /// Custom event from a plugin module.
    Custom {
        name: String,
        data: String,
    },
}

impl DeepView for Event {
    type V = EventView;

    open spec fn deep_view(&self) -> EventView {
        match self {
            Event::ConfigReloaded => EventView::ConfigReloaded,
            Event::ConfigReloadFailed { error } => {
                EventView::ConfigReloadFailed { error: error.deep_view() }
            },
            Event::CertIssued { domain } => EventView::CertIssued { domain: domain.deep_view() },
            Event::CertRenewalFailed { domain, error } => {
                EventView::CertRenewalFailed {
                    domain: domain.deep_view(),
                    error: error.deep_view(),
                }
            },
            Event::UpstreamHealthChanged { address, healthy } => {
                EventView::UpstreamHealthChanged {
                    address: address.deep_view(),
                    healthy: healthy.deep_view(),
                }
            },
            Event::ShutdownInitiated => EventView::ShutdownInitiated,
            Event::Custom { name, data } => {
                EventView::Custom { name: name.deep_view(), data: data.deep_view() }
            },
        }
    }
}

impl Data for Event {
    fn duplicate(&self) -> (r: Event) {
        match self {
            Event::ConfigReloaded => Event::ConfigReloaded,
            Event::ConfigReloadFailed { error } => {
                Event::ConfigReloadFailed { error: error.duplicate() }
            },
            Event::CertIssued { domain } => Event::CertIssued { domain: domain.duplicate() },
            Event::CertRenewalFailed { domain, error } => {
                Event::CertRenewalFailed { domain: domain.duplicate(), error: error.duplicate() }
            },
            Event::UpstreamHealthChanged { address, healthy } => {
                Event::UpstreamHealthChanged {
                    address: address.duplicate(),
                    healthy: healthy.duplicate(),
                }
            },
            Event::ShutdownInitiated => Event::ShutdownInitiated,
            Event::Custom { name, data } => {
                Event::Custom { name: name.duplicate(), data: data.duplicate() }
            },
        }
    }

    fn same_as(&self, other: &Event) -> (r: bool) {
        match (self, other) {
            (Event::ConfigReloaded, Event::ConfigReloaded) => true,
            (
                Event::ConfigReloadFailed { error },
                Event::ConfigReloadFailed { error: b_error },
            ) => error.same_as(b_error),
            (Event::CertIssued { domain }, Event::CertIssued { domain: b_domain }) => {
                domain.same_as(b_domain)
            },
            (
                Event::CertRenewalFailed { domain, error },
                Event::CertRenewalFailed { domain: b_domain, error: b_error },
            ) => {
                domain.same_as(b_domain)
                    && error.same_as(b_error)
            },
            (
                Event::UpstreamHealthChanged { address, healthy },
                Event::UpstreamHealthChanged { address: b_address, healthy: b_healthy },
            ) => {
                address.same_as(b_address)
                    && healthy.same_as(b_healthy)
            },
            (Event::ShutdownInitiated, Event::ShutdownInitiated) => true,
            (Event::Custom { name, data }, Event::Custom { name: b_name, data: b_data }) => {
                name.same_as(b_name)
                    && data.same_as(b_data)
            },
            _ => false,
        }
    }
}

impl Clone for Event {
    fn clone(&self) -> (r: Event)
        ensures
            r.deep_view() == self.deep_view(),
    {
        self.duplicate()
    }
}

/// A truth value in words.
pub open spec fn truth(b: bool) -> Seq<char> {
    if b {
        "true"@
    } else {
        "false"@
    }
}

fn truth_text(b: bool) -> (r: &'static str)
    ensures
        r@ == truth(b),
{
    if b {
        "true"
    } else {
        "false"
    }
}

/// What happened, in words.
pub open spec fn event_text(e: EventView) -> Seq<char> {
    match e {
        EventView::ConfigReloaded => "config_reloaded"@,
        EventView::ConfigReloadFailed { error } => "config_reload_failed: "@ + error,
        EventView::CertIssued { domain } => "cert_issued: "@ + domain,
        EventView::CertRenewalFailed { domain, error } => {
            "cert_renewal_failed: "@ + domain + ": "@ + error
        },
        EventView::UpstreamHealthChanged { address, healthy } => {
            "upstream_health: "@ + address + " healthy="@ + truth(healthy)
        },
        EventView::ShutdownInitiated => "shutdown_initiated"@,
        EventView::Custom { name, data } => "custom:"@ + name + ": "@ + data,
    }
}

impl Event {
    /// What happened, in words.
    pub fn message(&self) -> (r: String)
        ensures
            r@ == event_text(self.deep_view()),
    {
        match self {
            Event::ConfigReloaded => "config_reloaded".to_owned(),
            Event::ConfigReloadFailed { error } => {
                let mut out = "config_reload_failed: ".to_owned();
                out.append(error.as_str());
                out
            },
            Event::CertIssued { domain } => {
                let mut out = "cert_issued: ".to_owned();
                out.append(domain.as_str());
                out
            },
            Event::CertRenewalFailed { domain, error } => {
                let mut out = "cert_renewal_failed: ".to_owned();
                out.append(domain.as_str());
                out.append(": ");
                out.append(error.as_str());
                out
            },
            Event::UpstreamHealthChanged { address, healthy } => {
                let mut out = "upstream_health: ".to_owned();
                out.append(address.as_str());
                out.append(" healthy=");
                out.append(truth_text(*healthy));
                out
            },
            Event::ShutdownInitiated => "shutdown_initiated".to_owned(),
            Event::Custom { name, data } => {
                let mut out = "custom:".to_owned();
                out.append(name.as_str());
                out.append(": ");
                out.append(data.as_str());
                out
            },
        }
    }
}

/// What is told of an event tells what it concerns and what went wrong.
pub proof fn lemma_event_told(a: Seq<char>, b: Seq<char>, up: bool, x: Seq<char>, y: Seq<char>)
    ensures
        text::ends(event_text(EventView::ConfigReloadFailed { error: a }), a),
        text::ends(event_text(EventView::CertIssued { domain: a }), a),
        text::ends(
            event_text(EventView::CertRenewalFailed { domain: a, error: b }),
            a + seq![':', ' '] + b,
        ),
        text::ends(
            event_text(EventView::UpstreamHealthChanged { address: a, healthy: true }),
            seq!['t', 'r', 'u', 'e'],
        ),
        text::ends(
            event_text(EventView::UpstreamHealthChanged { address: a, healthy: false }),
            seq!['f', 'a', 'l', 's', 'e'],
        ),
        text::ends(event_text(EventView::Custom { name: a, data: b }), a + seq![':', ' '] + b),
        event_text(EventView::UpstreamHealthChanged { address: x, healthy: up }) == event_text(
            EventView::UpstreamHealthChanged { address: y, healthy: up },
        ) ==> x == y,
{
    reveal_strlit(": ");
    reveal_strlit("true");
    reveal_strlit("false");
    assert(": "@ =~= seq![':', ' ']);
    assert("true"@ =~= seq!['t', 'r', 'u', 'e']);
    assert("false"@ =~= seq!['f', 'a', 'l', 's', 'e']);
    lemma_at_end("config_reload_failed: "@, a);
    lemma_at_end("cert_issued: "@, a);
    let c = a + seq![':', ' '] + b;
    lemma_at_end("cert_renewal_failed: "@, c);
    assert("cert_renewal_failed: "@ + c =~= "cert_renewal_failed: "@ + a + ": "@ + b);
    lemma_at_end("custom:"@, c);
    assert("custom:"@ + c =~= "custom:"@ + a + ": "@ + b);
    let h = "upstream_health: "@;
    let m = " healthy="@;
    lemma_at_end(h + a + m, "true"@);
    lemma_at_end(h + a + m, "false"@);
    let s = h + x + m + truth(up);
    let t = h + y + m + truth(up);
    if s == t {
        assert(s.len() == h.len() + x.len() + m.len() + truth(up).len());
        assert(t.len() == h.len() + y.len() + m.len() + truth(up).len());
        assert(x.len() == y.len());
        assert(s.subrange(h.len() as int, (h.len() + x.len()) as int) =~= x);
        assert(t.subrange(h.len() as int, (h.len() + y.len()) as int) =~= y);
    }
}

/// What a text is continued with stands at its end.
proof fn lemma_at_end(a: Seq<char>, s: Seq<char>)
    ensures
        text::ends(a + s, s),
{
    assert((a + s).subrange(a.len() as int, (a + s).len() as int) =~= s);
}

} // verus!
