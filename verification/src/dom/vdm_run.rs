//! In which order a module is asked for its versatile diagnostics.

use vstd::prelude::*;
use crate::dom::dom_mgr::{freeze_needed, DomInfoUpdateTask};
use crate::dom::utilities::vdm::{confirmed, VdmRequest, VdmUtils};
use crate::hal::{yes, Sfp};

verus! {

/// What is asked of a module under a freeze.
pub open spec fn asked_under_freeze(frozen: bool) -> Seq<VdmRequest> {
    if frozen {
        seq![VdmRequest::Statistic, VdmRequest::Pm]
    } else {
        Seq::empty()
    }
}

/// What is asked of a module that gives the answers of `s` for its versatile
/// diagnostics, where it has them: what needs a freeze, between freezing and
/// releasing, its other values, and last its flags.
pub open spec fn vdm_part(s: Sfp) -> Seq<VdmRequest> {
    if !yes(s.vdm_supported) {
        Seq::empty()
    } else if freeze_needed(s) {
        seq![VdmRequest::Freeze] + asked_under_freeze(confirmed(s.vdm_freeze)) + seq![
            VdmRequest::Release,
            VdmRequest::Basic,
            VdmRequest::Flags,
        ]
    } else {
        seq![VdmRequest::Basic, VdmRequest::Flags]
    }
}

/// What is asked of a module that gives the answers of `s`: its firmware versions,
/// and what its versatile diagnostics need.
pub open spec fn vdm_requests(s: Sfp) -> Seq<VdmRequest> {
    seq![VdmRequest::Firmware] + vdm_part(s)
}

/// What is asked next of a module that has answered `last`, and whose answers so far
/// are those of `s`.
pub open spec fn request_after(last: VdmRequest, s: Sfp) -> VdmRequest {
    match last {
        VdmRequest::Firmware => if !yes(s.vdm_supported) {
            VdmRequest::Done
        } else if freeze_needed(s) {
            VdmRequest::Freeze
        } else {
            VdmRequest::Basic
        },
        VdmRequest::Freeze => if confirmed(s.vdm_freeze) {
            VdmRequest::Statistic
        } else {
            VdmRequest::Release
        },
        VdmRequest::Statistic => VdmRequest::Pm,
        VdmRequest::Pm => VdmRequest::Release,
        VdmRequest::Release => VdmRequest::Basic,
        VdmRequest::Basic => VdmRequest::Flags,
        VdmRequest::Flags | VdmRequest::Done => VdmRequest::Done,
    }
}

impl DomInfoUpdateTask {
    /// What is asked next of a module that has answered `last`, and whose answers so
    /// far are those of `sfp`.
    pub fn next_vdm_request(&self, last: VdmRequest, sfp: &Sfp) -> (r: VdmRequest)
        ensures
            r == request_after(last, *sfp),
    {
        match last {
            VdmRequest::Firmware => if !VdmUtils::new().is_transceiver_vdm_supported(sfp) {
                VdmRequest::Done
            } else if self.is_vdm_freeze_needed(sfp) {
                VdmRequest::Freeze
            } else {
                VdmRequest::Basic
            },
            VdmRequest::Freeze => if VdmUtils::new().freeze_and_confirm(sfp) {
                VdmRequest::Statistic
            } else {
                VdmRequest::Release
            },
            VdmRequest::Statistic => VdmRequest::Pm,
            VdmRequest::Pm => VdmRequest::Release,
            VdmRequest::Release => VdmRequest::Basic,
            VdmRequest::Basic => VdmRequest::Flags,
            VdmRequest::Flags | VdmRequest::Done => VdmRequest::Done,
        }
    }
}

/// `asked[i]` is what is asked next after the answer to what was asked before it.
pub open spec fn follows(asked: Seq<VdmRequest>, answers: Seq<Sfp>, i: int) -> bool {
    asked[i] == request_after(asked[i - 1], answers[i - 1])
}

/// `asked` is what one reading of a module asks of it, up to some point;
/// `answers[i]` holds the module's answers up to that to `asked[i]`.
pub open spec fn vdm_run(asked: Seq<VdmRequest>, answers: Seq<Sfp>) -> bool {
    &&& asked.len() > 0
    &&& answers.len() == asked.len()
    &&& asked[0] == VdmRequest::Firmware
    &&& forall|i: int| 0 < i < asked.len() ==> #[trigger] follows(asked, answers, i)
}

/// A module that was asked to freeze its statistics is asked to release them before
/// the reading is over, whatever it answers, and until then nothing but what is read
/// under the freeze is asked of it.
pub proof fn law_freeze_is_released(asked: Seq<VdmRequest>, answers: Seq<Sfp>, i: int) -> (j: int)
    requires
        vdm_run(asked, answers),
        asked.last() == VdmRequest::Done,
        0 <= i < asked.len(),
        asked[i] == VdmRequest::Freeze,
    ensures
        i < j < asked.len() - 1,
        asked[j] == VdmRequest::Release,
        forall|k: int|
            i < k < j ==> (#[trigger] asked[k] == VdmRequest::Statistic || asked[k] == VdmRequest::Pm),
{
    let k = i + 1;
    assert(follows(asked, answers, k));
    if asked[k] == VdmRequest::Release {
        k
    } else {
        assert(follows(asked, answers, k + 1));
        assert(follows(asked, answers, k + 2));
        k + 2
    }
}

/// The statistics and the performance monitoring values are asked for only under a
/// freeze that the module confirmed and that is not yet released.
pub proof fn law_statistics_need_a_freeze(asked: Seq<VdmRequest>, answers: Seq<Sfp>, i: int) -> (j: int)
    requires
        vdm_run(asked, answers),
        0 <= i < asked.len(),
        asked[i] == VdmRequest::Statistic || asked[i] == VdmRequest::Pm,
    ensures
        0 <= j < i,
        asked[j] == VdmRequest::Freeze,
        confirmed(answers[j].vdm_freeze),
        forall|k: int| j < k < i ==> #[trigger] asked[k] != VdmRequest::Release,
{
    assert(follows(asked, answers, i));
    if asked[i] == VdmRequest::Statistic {
        i - 1
    } else {
        assert(follows(asked, answers, i - 1));
        i - 2
    }
}

/// The flags, which a read clears, are asked for last: after the other values, and
/// nothing follows.
pub proof fn law_flags_are_read_last(asked: Seq<VdmRequest>, answers: Seq<Sfp>, i: int)
    requires
        vdm_run(asked, answers),
        0 <= i < asked.len(),
        asked[i] == VdmRequest::Flags,
    ensures
        i > 0 && asked[i - 1] == VdmRequest::Basic,
        forall|k: int| i < k < asked.len() ==> #[trigger] asked[k] == VdmRequest::Done,
{
    assert(follows(asked, answers, i));
    lemma_done_stays(asked, answers, i);
}

proof fn lemma_done_stays(asked: Seq<VdmRequest>, answers: Seq<Sfp>, i: int)
    requires
        vdm_run(asked, answers),
        0 <= i < asked.len(),
        asked[i] == VdmRequest::Flags || asked[i] == VdmRequest::Done,
    ensures
        forall|k: int| i < k < asked.len() ==> #[trigger] asked[k] == VdmRequest::Done,
    decreases asked.len() - i,
{
    if i + 1 < asked.len() {
        assert(follows(asked, answers, i + 1));
        lemma_done_stays(asked, answers, i + 1);
    }
}

/// What `s` answers to what decides how a reading goes on after `last` is what `a`
/// answers.
pub open spec fn decides_alike(last: VdmRequest, a: Sfp, s: Sfp) -> bool {
    match last {
        VdmRequest::Firmware => yes(a.vdm_supported) == yes(s.vdm_supported) && freeze_needed(a)
            == freeze_needed(s),
        VdmRequest::Freeze => confirmed(a.vdm_freeze) == confirmed(s.vdm_freeze),
        _ => true,
    }
}

/// A reading that is carried to its end asks of the module exactly what publishing
/// its answers rests on.
pub proof fn law_reading_asks_what_is_published(asked: Seq<VdmRequest>, answers: Seq<Sfp>, s: Sfp)
    requires
        vdm_run(asked, answers),
        asked.last() == VdmRequest::Done,
        forall|i: int| 0 <= i < asked.len() - 1 ==> #[trigger] asked[i] != VdmRequest::Done,
        forall|i: int| 0 <= i < asked.len() ==> decides_alike(#[trigger] asked[i], answers[i], s),
    ensures
        asked == vdm_requests(s).push(VdmRequest::Done),
{
    let all = vdm_requests(s).push(VdmRequest::Done);
    lemma_asked_alike(asked, answers, s, asked.len() as int);
    assert(all.last() == VdmRequest::Done);
    if asked.len() < all.len() {
        assert(asked[asked.len() - 1] == all[asked.len() - 1]);
    }
    assert(asked =~= all);
}

proof fn lemma_asked_alike(asked: Seq<VdmRequest>, answers: Seq<Sfp>, s: Sfp, n: int)
    requires
        vdm_run(asked, answers),
        forall|i: int| 0 <= i < asked.len() - 1 ==> #[trigger] asked[i] != VdmRequest::Done,
        forall|i: int| 0 <= i < asked.len() ==> decides_alike(#[trigger] asked[i], answers[i], s),
        1 <= n <= asked.len(),
    ensures
        n <= vdm_requests(s).len() + 1,
        forall|i: int| 0 <= i < n ==> #[trigger] asked[i] == vdm_requests(s).push(VdmRequest::Done)[i],
    decreases n,
{
    let all = vdm_requests(s).push(VdmRequest::Done);
    if n > 1 {
        lemma_asked_alike(asked, answers, s, n - 1);
        assert(follows(asked, answers, n - 1));
        assert(asked[n - 2] == all[n - 2]);
    }
}

/// To publish the versatile diagnostics of a module, it is asked to release its
/// statistics exactly where it is asked to freeze them, for its statistics and its
/// performance monitoring values exactly where the freeze came about, and last for
/// its flags.
pub proof fn law_published_freeze_is_released(s: Sfp)
    ensures
        ({
            let asked = vdm_part(s);
            let freezes = yes(s.vdm_supported) && freeze_needed(s);
            let frozen = freezes && confirmed(s.vdm_freeze);
            &&& asked.contains(VdmRequest::Freeze) == freezes
            &&& asked.contains(VdmRequest::Release) == freezes
            &&& asked.contains(VdmRequest::Statistic) == frozen
            &&& asked.contains(VdmRequest::Pm) == frozen
            &&& freezes ==> asked[0] == VdmRequest::Freeze && asked[asked.len() - 3] == VdmRequest::Release
            &&& yes(s.vdm_supported) ==> asked.last() == VdmRequest::Flags
        }),
{
    let asked = vdm_part(s);
    let freezes = yes(s.vdm_supported) && freeze_needed(s);
    if freezes {
        assert(asked[0] == VdmRequest::Freeze);
        assert(asked[asked.len() - 3] == VdmRequest::Release);
        if confirmed(s.vdm_freeze) {
            assert(asked[1] == VdmRequest::Statistic);
            assert(asked[2] == VdmRequest::Pm);
        }
    }
}

} // verus!
