//! Remote sessions: one container TTY shared by a local terminal and a browser, sized to
//! fit both.
use vstd::prelude::*;

verus! {

/// The smaller of two numbers.
pub open spec fn min_u16(a: u16, b: u16) -> u16 {
    if a <= b {
        a
    } else {
        b
    }
}

/// The size both viewers can see: the smaller rows and columns when both are known,
/// else the one that is.
pub open spec fn combine_spec(local: Option<(u16, u16)>, browser: Option<(u16, u16)>) -> Option<(u16, u16)> {
    match (local, browser) {
        (Some(l), Some(b)) => Some((min_u16(l.0, b.0), min_u16(l.1, b.1))),
        (Some(l), None) => Some(l),
        (None, Some(b)) => Some(b),
        (None, None) => None,
    }
}

pub fn combine_sizes(local: Option<(u16, u16)>, browser: Option<(u16, u16)>) -> (r: Option<(u16, u16)>)
    ensures
        r == combine_spec(local, browser),
{
    match (local, browser) {
        (Some((lr, lc)), Some((br, bc))) => Some((if lr <= br {
            lr
        } else {
            br
        }, if lc <= bc {
            lc
        } else {
            bc
        })),
        (Some(size), None) => Some(size),
        (None, Some(size)) => Some(size),
        (None, None) => None,
    }
}

/// Law: the combined size fits each viewer that is known.
pub proof fn law_combined_size_fits(local: Option<(u16, u16)>, browser: Option<(u16, u16)>)
    ensures
        local is Some || browser is Some ==> combine_spec(local, browser) is Some,
        combine_spec(local, browser) matches Some(c) ==> {
            &&& (local matches Some(l) ==> c.0 <= l.0 && c.1 <= l.1)
            &&& (browser matches Some(b) ==> c.0 <= b.0 && c.1 <= b.1)
        },
{
}

/// A terminal-size update from one of the two viewers.
#[derive(Clone, Copy, Debug, PartialEq, Eq, Structural)]
pub enum SizeUpdate {
    Local(u16, u16),
    Browser(u16, u16),
}

/// The last size each viewer reported.
pub struct ResizeCoordinator {
    pub local: Option<(u16, u16)>,
    pub browser: Option<(u16, u16)>,
}

impl ResizeCoordinator {
    pub fn new() -> (r: ResizeCoordinator)
        ensures
            r.local is None,
            r.browser is None,
    {
        ResizeCoordinator { local: None, browser: None }
    }

    /// Records an update; returns the size to push to the container, if any.
    pub fn update(&mut self, u: SizeUpdate) -> (r: Option<(u16, u16)>)
        ensures
            match u {
                SizeUpdate::Local(rows, cols) => final(self).local == Some((rows, cols)) && final(self).browser == old(self).browser,
                SizeUpdate::Browser(rows, cols) => final(self).browser == Some((rows, cols)) && final(self).local == old(self).local,
            },
            r == combine_spec(final(self).local, final(self).browser),
    {
        match u {
            SizeUpdate::Local(rows, cols) => self.local = Some((rows, cols)),
            SizeUpdate::Browser(rows, cols) => self.browser = Some((rows, cols)),
        }
        combine_sizes(self.local, self.browser)
    }
}

/// The size the bridge's PTY starts with: the host terminal's, or 24 rows by 80 columns
/// when there is no terminal to ask.
pub fn initial_pty_size(host: Option<(u16, u16)>) -> (r: (u16, u16))
    ensures
        r == (match host {
            Some(s) => s,
            None => (24u16, 80u16),
        }),
{
    match host {
        Some(s) => s,
        None => (24, 80),
    }
}

/// The arguments of the `docker` command that attaches the PTY to a container; signals
/// stay with the bridge.
pub fn attach_args(container_name: &str) -> (r: Vec<String>)
    ensures
        r@.len() == 3,
        r@[0]@ == "attach"@,
        r@[1]@ == "--sig-proxy=false"@,
        r@[2]@ == container_name@,
{
    let mut v: Vec<String> = Vec::new();
    v.push("attach".to_owned());
    v.push("--sig-proxy=false".to_owned());
    v.push(container_name.to_owned());
    v
}

/// The size the terminal reported, as rows and columns, when neither is zero.
pub fn reported_size(rows: u16, cols: u16) -> (r: Option<(u16, u16)>)
    ensures
        r == (if rows > 0 && cols > 0 {
            Some((rows, cols))
        } else {
            None
        }),
{
    if rows > 0 && cols > 0 {
        Some((rows, cols))
    } else {
        None
    }
}

} // verus!
