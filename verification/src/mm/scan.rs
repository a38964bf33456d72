//! Deciding whether a window is worth a huge page.

use vstd::prelude::*;
use crate::effect::Reply;
use crate::error::PagingError;

verus! {

/// What a scan comes to.
#[derive(Debug, Clone, Copy, PartialEq, Eq, Structural)]
pub enum Verdict {
    /// The page at this address is to be looked up.
    Look(usize),
    /// The window is not to be collapsed.
    Refused,
    /// The window is to be collapsed.
    Passed,
}

/// A walk over the small pages of a window. It counts the pages that are not
/// there and those whose frame is shared, and gives up when there are too many,
/// or when as many pages were looked at as may be.
#[derive(Debug)]
pub struct Scan {
    pub pages: Vec<usize>,
    pub at: usize,
    pub none: usize,
    pub shared: usize,
    pub max_none: usize,
    pub max_shared: usize,
    /// How many pages were looked at, in this window and before.
    pub scanned: usize,
    pub to_scan: usize,
}

/// What a scan amounts to.
pub struct ScanView {
    pub pages: Seq<usize>,
    pub at: nat,
    pub none: nat,
    pub shared: nat,
    pub max_none: usize,
    pub max_shared: usize,
    pub scanned: usize,
    pub to_scan: usize,
}

impl View for Scan {
    type V = ScanView;

    open spec fn view(&self) -> ScanView {
        ScanView {
            pages: self.pages@,
            at: self.at as nat,
            none: self.none as nat,
            shared: self.shared as nat,
            max_none: self.max_none,
            max_shared: self.max_shared,
            scanned: self.scanned,
            to_scan: self.to_scan,
        }
    }
}

impl ScanView {
    pub open spec fn wf(self) -> bool {
        &&& self.none <= self.at
        &&& self.shared <= self.at
        &&& self.at <= self.pages.len()
    }

    /// The scan turns to the page where it stands.
    pub open spec fn looking(self) -> (ScanView, Verdict) {
        if self.at >= self.pages.len() {
            (self, Verdict::Passed)
        } else if self.scanned >= self.to_scan {
            (self, Verdict::Refused)
        } else {
            (
                ScanView { scanned: (self.scanned + 1) as usize, ..self },
                Verdict::Look(self.pages[self.at as int]),
            )
        }
    }

    /// The scan after the page where it stands was looked up.
    pub open spec fn noting(self, reply: Reply, shared_frame: bool) -> (ScanView, Verdict) {
        match reply {
            Reply::Entry { .. } => {
                let t = ScanView {
                    shared: if shared_frame {
                        self.shared + 1
                    } else {
                        self.shared
                    },
                    at: self.at + 1,
                    ..self
                };
                if shared_frame && t.shared > self.max_shared {
                    (t, Verdict::Refused)
                } else {
                    t.looking()
                }
            },
            Reply::Fault(PagingError::NotMapped) => {
                let t = ScanView { none: self.none + 1, at: self.at + 1, ..self };
                if t.none > self.max_none {
                    (t, Verdict::Refused)
                } else {
                    t.looking()
                }
            },
            _ => (self, Verdict::Refused),
        }
    }
}

impl Scan {
    /// The scan of a window at its start.
    pub fn new(
        pages: Vec<usize>,
        max_none: usize,
        max_shared: usize,
        scanned: usize,
        to_scan: usize,
    ) -> (r: Scan)
        ensures
            r@ == (ScanView {
                pages: pages@,
                at: 0,
                none: 0,
                shared: 0,
                max_none,
                max_shared,
                scanned,
                to_scan,
            }),
            r@.wf(),
    {
        Scan { pages, at: 0, none: 0, shared: 0, max_none, max_shared, scanned, to_scan }
    }

    /// Turns to the page where it stands.
    pub fn look(&mut self) -> (r: Verdict)
        requires
            old(self)@.wf(),
        ensures
            (final(self)@, r) == old(self)@.looking(),
            final(self)@.wf(),
    {
        if self.at >= self.pages.len() {
            Verdict::Passed
        } else if self.scanned >= self.to_scan {
            Verdict::Refused
        } else {
            self.scanned = self.scanned + 1;
            Verdict::Look(self.pages[self.at])
        }
    }

    /// Takes note of the page where it stands.
    pub fn note(&mut self, reply: Reply, shared_frame: bool) -> (r: Verdict)
        requires
            old(self)@.wf(),
            old(self)@.at < old(self)@.pages.len(),
        ensures
            (final(self)@, r) == old(self)@.noting(reply, shared_frame),
            final(self)@.wf(),
    {
        proof {
            assert(self.pages.len() == self.pages@.len());
        }
        match reply {
            Reply::Entry { .. } => {
                self.at = self.at + 1;
                if shared_frame {
                    self.shared = self.shared + 1;
                    if self.shared > self.max_shared {
                        return Verdict::Refused;
                    }
                }
                self.look()
            },
            Reply::Fault(PagingError::NotMapped) => {
                self.at = self.at + 1;
                self.none = self.none + 1;
                if self.none > self.max_none {
                    return Verdict::Refused;
                }
                self.look()
            },
            _ => Verdict::Refused,
        }
    }
}

/// A scan never looks at more pages than may be looked at: once the limit is
/// reached the count stands still.
pub proof fn law_scan_stays_within_its_budget(s: ScanView, reply: Reply, shared_frame: bool)
    ensures
        ({
            let t = s.looking().0;
            t.to_scan == s.to_scan && (t.scanned <= s.to_scan || t.scanned == s.scanned)
        }),
        ({
            let t = s.noting(reply, shared_frame).0;
            t.to_scan == s.to_scan && (t.scanned <= s.to_scan || t.scanned == s.scanned)
        }),
{
}

/// Whether a scan has found no more than it may of missing and of shared pages.
pub open spec fn within_limits(s: ScanView) -> bool {
    s.none <= s.max_none && s.shared <= s.max_shared
}

/// A scan that passes has looked at every page of the window and found no more
/// than it may of missing and of shared pages.
pub proof fn law_scan_passes_within_its_limits(s: ScanView, reply: Reply, shared_frame: bool)
    requires
        s.wf(),
        within_limits(s),
    ensures
        ({
            let (t, verdict) = s.looking();
            &&& !(verdict is Refused) ==> within_limits(t)
            &&& verdict is Passed ==> t.at == t.pages.len()
        }),
        s.at < s.pages.len() ==> ({
            let (t, verdict) = s.noting(reply, shared_frame);
            &&& !(verdict is Refused) ==> within_limits(t) && t.at == s.at + 1
            &&& verdict is Passed ==> t.at == t.pages.len()
        }),
{
}

} // verus!
