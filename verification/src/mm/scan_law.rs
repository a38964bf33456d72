//! What a scan of a window decides.

use vstd::prelude::*;
use crate::effect::Reply;
use crate::error::PagingError;
use crate::mm::scan::{Scan, ScanView, Verdict};

verus! {

/// What a scan learns of a page: the reply to its query, and whether its frame is
/// shared.
pub struct Sight {
    pub reply: Reply,
    pub shared: bool,
}

/// How many of the first `k` pages are not there.
pub open spec fn missing(seen: Seq<Sight>, k: int) -> int
    decreases k,
{
    if k <= 0 {
        0
    } else {
        missing(seen, k - 1) + if seen[k - 1].reply == Reply::Fault(PagingError::NotMapped) {
            1int
        } else {
            0
        }
    }
}

/// How many of the first `k` pages are there and have a frame that is shared.
pub open spec fn shared(seen: Seq<Sight>, k: int) -> int
    decreases k,
{
    if k <= 0 {
        0
    } else {
        shared(seen, k - 1) + if seen[k - 1].reply is Entry && seen[k - 1].shared {
            1int
        } else {
            0
        }
    }
}

/// Whether a page could be looked up.
pub open spec fn seen_well(s: Sight) -> bool {
    s.reply is Entry || s.reply == Reply::Fault(PagingError::NotMapped)
}

/// A scan of a window: where it stands before each page and behind the last, what
/// it said there, and what it saw.
pub struct ScanRun {
    pub states: Seq<ScanView>,
    pub verdicts: Seq<Verdict>,
    pub seen: Seq<Sight>,
}

impl ScanRun {
    /// Whether the scan goes so from its start on.
    pub open spec fn runs(self, start: ScanView) -> bool {
        &&& self.states.len() == self.seen.len() + 1
        &&& self.verdicts.len() == self.seen.len() + 1
        &&& (self.states[0], self.verdicts[0]) == start.looking()
        &&& forall|i: int|
            0 <= i < self.seen.len() ==> (#[trigger] self.verdicts[i]) is Look && (
            self.states[i + 1],
            self.verdicts[i + 1],
            ) == self.states[i].noting(self.seen[i].reply, self.seen[i].shared)
    }
}

/// What a scan is to say after `k` pages of a window.
pub open spec fn right_verdict(
    pages: Seq<usize>,
    max_none: usize,
    max_shared: usize,
    scanned: usize,
    to_scan: usize,
    seen: Seq<Sight>,
    k: int,
    verdict: Verdict,
) -> bool {
    let bad = k > 0 && (missing(seen, k) > max_none || shared(seen, k) > max_shared || !seen_well(
        seen[k - 1],
    ));
    if bad {
        verdict is Refused
    } else if k == pages.len() {
        verdict is Passed
    } else if scanned + k >= to_scan {
        verdict is Refused
    } else {
        verdict == Verdict::Look(pages[k])
    }
}

/// A scan looks at one page of the window after the other. It refuses the window as
/// soon as, and only if, more pages are missing than may be, more frames are shared
/// than may be, a page cannot be looked up, or the budget is used up before the
/// window is done; else it passes behind the last page. It counts the pages that it
/// looks at.
pub proof fn law_scan_refuses_only_with_a_reason(
    pages: Vec<usize>,
    max_none: usize,
    max_shared: usize,
    scanned: usize,
    to_scan: usize,
    scan: Scan,
    run: ScanRun,
)
    requires
        call_ensures(Scan::new, (pages, max_none, max_shared, scanned, to_scan), scan),
        run.runs(scan@),
    ensures
        right_verdict(
            pages@,
            max_none,
            max_shared,
            scanned,
            to_scan,
            run.seen,
            run.seen.len() as int,
            run.verdicts.last(),
        ),
        run.states.last().scanned == scanned + run.seen.len() + (if run.verdicts.last() is Look {
            1int
        } else {
            0
        }),
{
    lemma_scan(scan@, run, run.seen.len() as int);
}

/// What a scan comes to after `k` pages.
pub proof fn lemma_scan(s: ScanView, run: ScanRun, k: int)
    requires
        s.at == 0,
        s.none == 0,
        s.shared == 0,
        run.runs(s),
        0 <= k <= run.seen.len(),
    ensures
        right_verdict(
            s.pages,
            s.max_none,
            s.max_shared,
            s.scanned,
            s.to_scan,
            run.seen,
            k,
            run.verdicts[k],
        ),
        run.states[k].scanned == s.scanned + k + (if run.verdicts[k] is Look {
            1int
        } else {
            0
        }),
        run.verdicts[k] is Look ==> {
            let t = run.states[k];
            &&& t == (ScanView {
                at: k as nat,
                none: missing(run.seen, k) as nat,
                shared: shared(run.seen, k) as nat,
                scanned: t.scanned,
                ..s
            })
            &&& 0 <= missing(run.seen, k) <= s.max_none
            &&& 0 <= shared(run.seen, k) <= s.max_shared
            &&& k < s.pages.len()
        },
    decreases k,
{
    if k > 0 {
        lemma_scan(s, run, k - 1);
        let i = k - 1;
        assert(run.verdicts[i] is Look);
        assert((run.states[i + 1], run.verdicts[i + 1]) == run.states[i].noting(
            run.seen[i].reply,
            run.seen[i].shared,
        ));
    }
}

} // verus!
