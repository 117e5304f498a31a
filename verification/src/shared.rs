use vstd::prelude::*;

use crate::catalog::same_text;
use crate::text::push_str;

verus! {

/// What to do when a shared connection is asked for.
#[derive(Debug)]
pub enum ConnectPlan {
    /// Hand out the connection that is open.
    Reuse,
    /// Open a new connection, to `host` or, where it is `None`, to the first console that
    /// answers a discovery broadcast; remember it under `label`.
    Connect { host: Option<String>, label: String },
}

pub enum ConnectPlanView {
    Reuse,
    Connect { host: Option<Seq<char>>, label: Seq<char> },
}

impl View for ConnectPlan {
    type V = ConnectPlanView;

    open spec fn view(&self) -> ConnectPlanView {
        match self {
            ConnectPlan::Reuse => ConnectPlanView::Reuse,
            ConnectPlan::Connect { host, label } => ConnectPlanView::Connect {
                host: match host {
                    Some(h) => Some(h@),
                    None => None,
                },
                label: label@,
            },
        }
    }
}

/// The label of a connection opened by discovery.
pub open spec fn auto_label() -> Seq<char> {
    "auto"@
}

/// The plan for a request of a shared connection to `requested`, where `open` is the label
/// of the connection that is open: an open connection is handed out unless another host is
/// asked for; without one, the host asked for is connected to, discovery being used where
/// none or `auto` is asked for.
pub open spec fn connection_plan(open: Option<Seq<char>>, requested: Option<Seq<char>>) -> ConnectPlanView {
    match open {
        Some(current) => match requested {
            Some(h) => if current != h {
                ConnectPlanView::Connect { host: Some(h), label: h }
            } else {
                ConnectPlanView::Reuse
            },
            None => ConnectPlanView::Reuse,
        },
        None => {
            let label = match requested {
                Some(h) => h,
                None => auto_label(),
            };
            ConnectPlanView::Connect {
                host: if label == auto_label() {
                    None
                } else {
                    Some(label)
                },
                label,
            }
        },
    }
}

fn owned(s: &str) -> (r: String)
    ensures
        r@ == s@,
{
    let mut r = String::new();
    push_str(&mut r, s);
    assert(r@ =~= s@);
    r
}

/// Decides what a request of a shared connection does (see [`connection_plan`]).
pub fn plan_connection(open: Option<&str>, requested: Option<&str>) -> (p: ConnectPlan)
    ensures
        p@ == connection_plan(
            match open {
                Some(s) => Some(s@),
                None => None,
            },
            match requested {
                Some(s) => Some(s@),
                None => None,
            },
        ),
{
    match open {
        Some(current) => match requested {
            Some(h) => if !same_text(current, h) {
                ConnectPlan::Connect { host: Some(owned(h)), label: owned(h) }
            } else {
                ConnectPlan::Reuse
            },
            None => ConnectPlan::Reuse,
        },
        None => {
            let label: &str = match requested {
                Some(h) => h,
                None => "auto",
            };
            let host = if same_text(label, "auto") {
                None
            } else {
                Some(owned(label))
            };
            ConnectPlan::Connect { host, label: owned(label) }
        },
    }
}

} // verus!
