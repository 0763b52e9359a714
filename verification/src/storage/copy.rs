//! Server-side copy of an object in parts, as a state machine: what has happened so far
//! decides the next request, and any failure leads to the abort of the upload.

use vstd::prelude::*;
use vstd::string::StringExecFns;

use crate::storage::s3::{
    budget_error, ceil_div, clamped, copy_chunk_size, copy_chunk_size_for, deadline_nanos,
    law_copies_stay_within_the_part_limit, opt_nanos, part_count_of, part_deadline, part_limit,
    part_range, prefixed, range_at, range_values, remaining_budget, s3_deadline, PartRange,
    S3Client, S3OpClass, S3Timeouts, CLEANUP_TIMEOUT_SECS, COPY_OBJECT_MAX_SIZE, MAX_PARTS,
};
use crate::text::{decimal, decimal_text, opt_text};
use crate::time::{Duration, NANOS_PER_SEC};

verus! {

/// A copy in parts that is under way.
#[derive(Debug, Clone)]
pub struct MultipartCopy {
    full_dest_key: String,
    source_size: u64,
    chunk_size: u64,
    part_count: u64,
    timeouts: S3Timeouts,
    object_deadline: Option<Duration>,
    upload_id: Option<String>,
    etags: Vec<String>,
}

/// The request that comes next.
#[derive(Debug, Clone)]
pub enum CopyAction {
    /// Copy this range as the next part.
    CopyPart { range: PartRange, deadline: Option<Duration> },
    /// Assemble the parts.
    Complete { deadline: Option<Duration> },
    /// Abort the upload, once and within the limit, and report the error.
    Abort { error: String, limit: Duration },
    /// Report the error; there is no upload to abort.
    Fail { error: String },
    /// The object was copied; there is nothing to abort.
    Done,
}

/// The upload is aborted within the time for cleaning up, which runs whether or not requests
/// have deadlines, and the error is reported.
pub open spec fn aborts(action: CopyAction, error: Seq<char>) -> bool {
    action matches CopyAction::Abort { error: e, limit } && e@ == error
        && limit.total_nanos() == CLEANUP_TIMEOUT_SECS * NANOS_PER_SEC
}

/// The abort of the upload, with the error to report.
fn abort_with(error: String) -> (r: CopyAction)
    ensures
        aborts(r, error@),
        r is Abort && r->Abort_error@ == error@ && r->limit.total_nanos() == 30 * 1_000_000_000,
{
    CopyAction::Abort { error, limit: Duration::from_secs(CLEANUP_TIMEOUT_SECS) }
}

/// The error to report after the abort of an upload: the one that led to it, whether or not
/// the abort succeeded.
pub fn error_after_abort(error: String, abort: Result<(), String>) -> (r: String)
    ensures
        r == error,
{
    error
}

/// What a contract says of a copy that is under way.
#[verifier::ext_equal]
pub struct CopyModel {
    pub full_dest_key: Seq<char>,
    pub source_size: u64,
    pub chunk_size: u64,
    pub timeouts: S3Timeouts,
    /// When the budget ends, in nanoseconds from the common start.
    pub object_deadline: Option<nat>,
    pub upload_id: Option<Seq<char>>,
    /// The tags of the parts that were copied, in order.
    pub etags: Seq<Seq<char>>,
}

impl CopyModel {
    /// The number of parts of the object.
    pub open spec fn part_count(self) -> nat {
        ceil_div(self.source_size as nat, self.chunk_size as nat)
    }

    /// The budget is used up at `now`.
    pub open spec fn out_of_time(self, now: nat) -> bool {
        self.object_deadline matches Some(d) && d <= now
    }

    /// What is left of the budget at `now`.
    pub open spec fn left(self, now: nat) -> Option<nat> {
        match self.object_deadline {
            Some(d) => Some((d - now) as nat),
            None => None,
        }
    }

    /// `action` is what follows at `now`: the next part while there is one, then the
    /// completion, each within what is left of the budget, and the abort where nothing is.
    pub open spec fn followed_by(self, now: nat, action: CopyAction) -> bool {
        let n = self.etags.len();
        if self.out_of_time(now) {
            aborts(
                action,
                if n < self.part_count() {
                    "after "@ + decimal(n) + "/"@ + decimal(self.part_count()) + " parts of "@
                        + self.full_dest_key + ": "@ + budget_error()
                } else {
                    budget_error()
                },
            )
        } else if n < self.part_count() {
            action matches CopyAction::CopyPart { range, deadline } && {
                &&& range_values(range) == range_at(
                    n as int,
                    self.source_size as int,
                    self.chunk_size as int,
                )
                &&& opt_nanos(deadline) == clamped(
                    deadline_nanos(
                        S3OpClass::Copy,
                        Some((range.end - range.start + 1) as u64),
                        self.timeouts,
                    ),
                    self.left(now),
                )
            }
        } else {
            action matches CopyAction::Complete { deadline } && opt_nanos(deadline) == self.left(
                now,
            )
        }
    }
}

impl View for MultipartCopy {
    type V = CopyModel;

    closed spec fn view(&self) -> CopyModel {
        CopyModel {
            full_dest_key: self.full_dest_key@,
            source_size: self.source_size,
            chunk_size: self.chunk_size,
            timeouts: self.timeouts,
            object_deadline: opt_nanos(self.object_deadline),
            upload_id: opt_text(self.upload_id),
            etags: self.etags.deep_view(),
        }
    }
}

impl MultipartCopy {
    /// The parts have a size, their number fits, and no more were copied than there are.
    pub closed spec fn well_formed(self) -> bool {
        &&& self.chunk_size > 0
        &&& self.source_size <= u64::MAX - self.chunk_size
        &&& self.part_count == ceil_div(self.source_size as nat, self.chunk_size as nat)
        &&& self.part_count < i32::MAX
        &&& self.etags@.len() <= self.part_count
    }

    /// Starts the copy of an object of known size. The budget of the whole object runs
    /// from `now`.
    pub fn begin(client: &S3Client, dest_key: &str, source_size: u64, now: Duration) -> (r:
        MultipartCopy)
        requires
            source_size <= u64::MAX - COPY_OBJECT_MAX_SIZE,
            ceil_div(
                source_size as nat,
                copy_chunk_size_for(source_size, client.chunk_size, client.max_parts_count),
            ) < i32::MAX,
        ensures
            r.well_formed(),
            r@.full_dest_key == prefixed(client.prefix@, dest_key@),
            r@.source_size == source_size,
            r@.chunk_size == copy_chunk_size_for(
                source_size,
                client.chunk_size,
                client.max_parts_count,
            ),
            source_size <= part_limit(client.max_parts_count) * COPY_OBJECT_MAX_SIZE
                ==> r@.part_count() <= part_limit(client.max_parts_count) <= MAX_PARTS,
            r@.timeouts == client.timeouts,
            r@.object_deadline == match deadline_nanos(
                S3OpClass::Copy,
                Some(source_size),
                client.timeouts,
            ) {
                None => None::<nat>,
                Some(d) => Some(
                    if now.total_nanos() + d <= Duration::max_nanos() {
                        now.total_nanos() + d
                    } else {
                        Duration::max_nanos()
                    },
                ),
            },
            r@.upload_id is None,
            r@.etags.len() == 0,
    {
        let chunk_size: u64 = copy_chunk_size(
            source_size,
            client.chunk_size,
            client.max_parts_count,
        );
        proof {
            if source_size <= part_limit(client.max_parts_count) * COPY_OBJECT_MAX_SIZE {
                law_copies_stay_within_the_part_limit(
                    source_size,
                    client.chunk_size,
                    client.max_parts_count,
                );
            }
        }
        let object_deadline = match s3_deadline(
            S3OpClass::Copy,
            Some(source_size),
            &client.timeouts,
        ) {
            Some(d) => Some(now.saturating_add(d)),
            None => None,
        };
        MultipartCopy {
            full_dest_key: client.full_key(dest_key),
            source_size,
            chunk_size,
            part_count: part_count_of(source_size, chunk_size),
            timeouts: client.timeouts,
            object_deadline,
            upload_id: None,
            etags: Vec::new(),
        }
    }

    /// The deadline of the request that creates the upload.
    pub fn create_deadline(&self) -> (r: Option<Duration>)
        ensures
            opt_nanos(r) == deadline_nanos(S3OpClass::Metadata, None, self@.timeouts),
    {
        s3_deadline(S3OpClass::Metadata, None, &self.timeouts)
    }

    /// What follows from the state at `now`.
    fn next_action(&self, now: Duration) -> (r: CopyAction)
        requires
            self.well_formed(),
        ensures
            self@.followed_by(now.total_nanos(), r),
    {
        let copied: u64 = self.etags.len() as u64;
        let left = match remaining_budget(self.object_deadline, now) {
            Some(Err(e)) => {
                if copied < self.part_count {
                    let error = "after ".to_string().concat(decimal_text(copied).as_str()).concat(
                        "/",
                    ).concat(decimal_text(self.part_count).as_str()).concat(" parts of ").concat(
                        self.full_dest_key.as_str(),
                    ).concat(": ").concat(e.as_str());
                    return abort_with(error);
                }
                return abort_with(e);
            },
            Some(Ok(left)) => Some(left),
            None => None,
        };
        if copied < self.part_count {
            let range = part_range(copied, self.source_size, self.chunk_size);
            let len: u64 = range.end - range.start + 1;
            CopyAction::CopyPart { range, deadline: part_deadline(len, &self.timeouts, left) }
        } else {
            CopyAction::Complete { deadline: left }
        }
    }

    /// The upload was created. Without an identifier there is nothing to copy into and
    /// nothing to abort.
    pub fn created(&mut self, upload_id: Option<String>, now: Duration) -> (r: CopyAction)
        requires
            old(self).well_formed(),
        ensures
            final(self).well_formed(),
            final(self)@ == (CopyModel { upload_id: opt_text(upload_id), ..old(self)@ }),
            upload_id is None ==> (r matches CopyAction::Fail { error } && error@
                == "Multipart copy: no upload_id returned for "@ + old(self)@.full_dest_key),
            upload_id is Some ==> final(self)@.followed_by(now.total_nanos(), r),
    {
        let known = upload_id.is_some();
        self.upload_id = upload_id;
        if known {
            self.next_action(now)
        } else {
            CopyAction::Fail {
                error: "Multipart copy: no upload_id returned for ".to_string().concat(
                    self.full_dest_key.as_str(),
                ),
            }
        }
    }

    /// A part was copied. Without a tag it cannot be assembled, and the upload is aborted.
    pub fn part_copied(&mut self, e_tag: Option<String>, now: Duration) -> (r: CopyAction)
        requires
            old(self).well_formed(),
            old(self)@.etags.len() < old(self)@.part_count(),
        ensures
            final(self).well_formed(),
            e_tag is None ==> final(self)@ == old(self)@ && aborts(
                r,
                "Missing ETag in UploadPartCopy response for part "@ + decimal(
                    (old(self)@.etags.len() + 1) as nat,
                ),
            ),
            e_tag matches Some(tag) ==> {
                &&& final(self)@ == (CopyModel {
                    etags: old(self)@.etags.push(tag@),
                    ..old(self)@
                })
                &&& final(self)@.followed_by(now.total_nanos(), r)
            },
    {
        match e_tag {
            Some(tag) => {
                let ghost was = self.etags.deep_view();
                let ghost text = tag@;
                self.etags.push(tag);
                assert(self.etags.deep_view() =~= was.push(text));
                self.next_action(now)
            },
            None => abort_with(
                "Missing ETag in UploadPartCopy response for part ".to_string().concat(
                    decimal_text(self.etags.len() as u64 + 1).as_str(),
                ),
            ),
        }
    }

    /// A request failed. The upload, once created, is aborted.
    pub fn failed(&self, error: String) -> (r: CopyAction)
        ensures
            self@.upload_id is Some ==> aborts(r, error@),
            self@.upload_id is None ==> r == (CopyAction::Fail { error }),
            self@.upload_id is Some ==> r is Abort && r->Abort_error@ == error@
                && r->limit.total_nanos() == 30 * 1_000_000_000,
    {
        if self.upload_id.is_some() {
            abort_with(error)
        } else {
            CopyAction::Fail { error }
        }
    }

    /// The completion ended. A copy that succeeded asks for no abort; one that failed is
    /// aborted like any other.
    pub fn completed(&self, outcome: Result<(), String>) -> (r: CopyAction)
        requires
            self@.upload_id is Some,
        ensures
            outcome is Ok ==> r == CopyAction::Done,
            outcome matches Err(error) ==> aborts(r, error@),
            outcome is Err ==> r is Abort && r->Abort_error@ == outcome->Err_0@,
    {
        match outcome {
            Ok(_) => CopyAction::Done,
            Err(error) => self.failed(error),
        }
    }

    /// The parts to assemble: their numbers, from 1 on, with their tags.
    pub fn completed_parts(&self) -> (r: Vec<(i32, String)>)
        requires
            self.well_formed(),
        ensures
            r@.len() == self@.etags.len(),
            forall|i: int|
                0 <= i < r@.len() ==> (#[trigger] r@[i]).0 == i + 1 && r@[i].1@ == self@.etags[i],
    {
        let mut out: Vec<(i32, String)> = Vec::new();
        let mut i: usize = 0;
        while i < self.etags.len()
            invariant
                i <= self.etags@.len(),
                self.etags@.len() < i32::MAX,
                out@.len() == i,
                forall|j: int|
                    0 <= j < i ==> (#[trigger] out@[j]).0 == j + 1 && out@[j].1@
                        == self.etags@[j]@,
            decreases self.etags@.len() - i,
        {
            out.push((i as i32 + 1, self.etags[i].clone()));
            i += 1;
        }
        out
    }
}

/// No request of a copy is given more time than what is left of the budget of the whole
/// object, so that all of them together never take longer than it.
pub proof fn law_requests_stay_within_the_budget(m: CopyModel, now: nat, action: CopyAction)
    requires
        m.object_deadline is Some,
        m.timeouts.request_timeout_secs > 0,
        m.followed_by(now, action),
    ensures
        action matches CopyAction::CopyPart { deadline, .. } ==> opt_nanos(deadline) matches Some(d)
            && now + d <= m.object_deadline->0,
        action matches CopyAction::Complete { deadline } ==> opt_nanos(deadline) matches Some(d)
            && now + d <= m.object_deadline->0,
        m.object_deadline->0 <= now ==> action is Abort,
{
}

/// The object is assembled only once every part was copied.
pub proof fn law_completion_needs_every_part(m: CopyModel, now: nat, action: CopyAction)
    requires
        m.followed_by(now, action),
        action is Complete,
    ensures
        m.etags.len() >= m.part_count(),
{
}

/// While the copy is under way, what follows is a part, the completion or the abort; the
/// copy is not done before its completion.
pub proof fn law_only_the_completion_ends_a_copy(m: CopyModel, now: nat, action: CopyAction)
    requires
        m.followed_by(now, action),
    ensures
        action is CopyPart || action is Complete || action is Abort,
{
}

/// A copy that runs out of its budget is aborted within half a minute, and the error tells
/// how many of the parts were copied, unless all of them were.
pub proof fn law_copies_out_of_budget_are_aborted(m: CopyModel, now: nat, action: CopyAction)
    requires
        m.object_deadline is Some,
        m.object_deadline->0 <= now,
        m.followed_by(now, action),
    ensures
        action is Abort,
        action->limit.total_nanos() == 30 * 1_000_000_000,
        m.etags.len() < m.part_count() ==> action->Abort_error@ == "after "@ + decimal(
            m.etags.len(),
        ) + "/"@ + decimal(m.part_count()) + " parts of "@ + m.full_dest_key + ": "@
            + "S3 request timed out: multipart copy exceeded its whole-object budget"@,
        m.etags.len() >= m.part_count() ==> action->Abort_error@
            == "S3 request timed out: multipart copy exceeded its whole-object budget"@,
{
}

/// A part is given the time that its size allows, or what is left of the budget where that is
/// less.
pub proof fn law_parts_are_given_their_time(m: CopyModel, now: nat, action: CopyAction)
    requires
        m.followed_by(now, action),
        action is CopyPart,
    ensures
        ({
            let own = deadline_nanos(
                S3OpClass::Copy,
                Some((action->range.end - action->range.start + 1) as u64),
                m.timeouts,
            );
            let given = opt_nanos(action->CopyPart_deadline);
            &&& own is None ==> given is None
            &&& own is Some && m.object_deadline is None ==> given == own
            &&& own is Some && m.object_deadline is Some && now + own->0 <= m.object_deadline->0
                ==> given == own
            &&& own is Some && m.object_deadline is Some && now + own->0 > m.object_deadline->0
                ==> given is Some && now + given->0 == m.object_deadline->0
        }),
{
}

} // verus!
