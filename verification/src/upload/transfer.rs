//! The transfer of one archive or one object in chunks, as a state machine: chunks are
//! numbered from 1 in the order in which they come, and a transfer that fails or is
//! cancelled is aborted once it was created.

use vstd::prelude::*;
use vstd::string::StringExecFns;

use crate::text::opt_text;

verus! {

/// A transfer in chunks that is under way.
#[derive(Debug)]
pub struct ChunkTransfer {
    /// What is transferred, for messages.
    name: String,
    /// There has to be a chunk: an archive is never empty, an object may be.
    needs_chunks: bool,
    upload_id: Option<String>,
    etags: Vec<String>,
    total: u64,
}

/// What a contract says of a transfer that is under way.
#[verifier::ext_equal]
pub struct TransferModel {
    pub name: Seq<char>,
    pub needs_chunks: bool,
    pub upload_id: Option<Seq<char>>,
    /// The tags of the chunks that were uploaded, in order.
    pub etags: Seq<Seq<char>>,
    /// The bytes of the chunks that were uploaded.
    pub total: u64,
}

impl View for ChunkTransfer {
    type V = TransferModel;

    closed spec fn view(&self) -> TransferModel {
        TransferModel {
            name: self.name@,
            needs_chunks: self.needs_chunks,
            upload_id: opt_text(self.upload_id),
            etags: self.etags.deep_view(),
            total: self.total,
        }
    }
}

/// How a transfer goes on or ends.
#[derive(Debug)]
pub enum TransferEnd {
    /// Assemble the chunks.
    Complete { upload_id: String, parts: Vec<(i32, String)> },
    /// Abort the upload and report the error.
    Abort { upload_id: String, error: String },
    /// Report the error; there is no upload to abort.
    Fail { error: String },
    /// The chunks were assembled; there is nothing to abort.
    Done,
}

/// The error where there was nothing to transfer.
pub open spec fn no_chunks_error(name: Seq<char>) -> Seq<char> {
    "Streaming compression produced zero chunks for part "@ + name
}

/// The parts are the tags with their numbers from 1 on.
pub open spec fn numbered(parts: Seq<(i32, String)>, etags: Seq<Seq<char>>) -> bool {
    &&& parts.len() == etags.len()
    &&& forall|i: int|
        0 <= i < parts.len() ==> (#[trigger] parts[i]).0 == i + 1 && parts[i].1@ == etags[i]
}

/// What a failure leads to: the abort of the upload, if there is one.
pub open spec fn failure(m: TransferModel, error: Seq<char>, end: TransferEnd) -> bool {
    match m.upload_id {
        Some(id) => end matches TransferEnd::Abort { upload_id, error: e } && upload_id@ == id
            && e@ == error,
        None => end matches TransferEnd::Fail { error: e } && e@ == error,
    }
}

/// What follows once there are no more chunks: they are assembled, unless there has to be
/// one and there is none.
pub open spec fn finishing(m: TransferModel, end: TransferEnd) -> bool {
    if m.needs_chunks && m.etags.len() == 0 {
        failure(m, no_chunks_error(m.name), end)
    } else {
        end matches TransferEnd::Complete { upload_id, parts } && Some(upload_id@) == m.upload_id
            && numbered(parts@, m.etags)
    }
}

/// What follows the completion: nothing after a success, and the abort after a failure,
/// with its error.
pub open spec fn completion(
    m: TransferModel,
    outcome: Result<(), String>,
    end: TransferEnd,
) -> bool {
    match outcome {
        Ok(_) => end is Done,
        Err(error) => failure(m, error@, end),
    }
}

impl ChunkTransfer {
    /// The transfer of the archive of a part, which is not created yet.
    pub fn new(name: &str) -> (r: ChunkTransfer)
        ensures
            r@ == (TransferModel {
                name: name@,
                needs_chunks: true,
                upload_id: None,
                etags: Seq::empty(),
                total: 0,
            }),
    {
        let t = ChunkTransfer {
            name: name.to_string(),
            needs_chunks: true,
            upload_id: None,
            etags: Vec::new(),
            total: 0,
        };
        assert(t.etags.deep_view() =~= Seq::empty());
        t
    }

    /// The transfer of an object, which may be empty and is not created yet.
    pub fn of_object(name: &str) -> (r: ChunkTransfer)
        ensures
            r@ == (TransferModel {
                name: name@,
                needs_chunks: false,
                upload_id: None,
                etags: Seq::empty(),
                total: 0,
            }),
    {
        let t = ChunkTransfer {
            name: name.to_string(),
            needs_chunks: false,
            upload_id: None,
            etags: Vec::new(),
            total: 0,
        };
        assert(t.etags.deep_view() =~= Seq::empty());
        t
    }

    /// The upload was created.
    pub fn created(&mut self, upload_id: String)
        ensures
            final(self)@ == (TransferModel { upload_id: Some(upload_id@), ..old(self)@ }),
    {
        self.upload_id = Some(upload_id);
    }

    /// Whether a chunk of the given length can still be counted.
    pub fn has_room(&self, len: usize) -> (r: bool)
        ensures
            r == (self@.etags.len() < i32::MAX - 1 && self@.total + len <= u64::MAX),
    {
        self.etags.len() < i32::MAX as usize - 1 && len as u64 <= u64::MAX - self.total
    }

    /// The number of the next chunk.
    pub fn next_number(&self) -> (r: i32)
        requires
            self@.etags.len() < i32::MAX,
        ensures
            r == self@.etags.len() + 1,
    {
        self.etags.len() as i32 + 1
    }

    /// The bytes of the chunks that were uploaded.
    pub fn total(&self) -> (r: u64)
        ensures
            r == self@.total,
    {
        self.total
    }

    /// A chunk of the given length was uploaded.
    pub fn chunk_uploaded(&mut self, len: usize, e_tag: String)
        requires
            old(self)@.total + len <= u64::MAX,
        ensures
            final(self)@ == (TransferModel {
                etags: old(self)@.etags.push(e_tag@),
                total: (old(self)@.total + len) as u64,
                ..old(self)@
            }),
    {
        let ghost was = self.etags.deep_view();
        let ghost tag = e_tag@;
        self.total = self.total + len as u64;
        self.etags.push(e_tag);
        assert(self.etags.deep_view() =~= was.push(tag));
    }

    /// There are no more chunks: they are assembled. An archive without any is an error.
    pub fn finished(&self) -> (r: TransferEnd)
        requires
            self@.etags.len() < i32::MAX,
            self@.upload_id is Some,
        ensures
            finishing(self@, r),
            self@.needs_chunks && self@.etags.len() == 0 ==> r is Abort && Some(r->Abort_upload_id@)
                == self@.upload_id && r->Abort_error@
                == "Streaming compression produced zero chunks for part "@ + self@.name,
            !self@.needs_chunks || self@.etags.len() > 0 ==> r is Complete && Some(
                r->Complete_upload_id@,
            ) == self@.upload_id && r->parts@.len() == self@.etags.len(),
            !self@.needs_chunks || self@.etags.len() > 0 ==> forall|i: int|
                0 <= i < r->parts@.len() ==> (#[trigger] r->parts@[i]).0 == i + 1
                    && r->parts@[i].1@ == self@.etags[i],
    {
        if self.needs_chunks && self.etags.len() == 0 {
            let error = "Streaming compression produced zero chunks for part ".to_string().concat(
                self.name.as_str(),
            );
            return self.failed(error);
        }
        let mut parts: Vec<(i32, String)> = Vec::new();
        let mut i: usize = 0;
        while i < self.etags.len()
            invariant
                i <= self.etags@.len() < i32::MAX,
                parts@.len() == i,
                forall|j: int|
                    0 <= j < i ==> (#[trigger] parts@[j]).0 == j + 1 && parts@[j].1@
                        == self.etags@[j]@,
            decreases self.etags@.len() - i,
        {
            parts.push((i as i32 + 1, self.etags[i].clone()));
            i += 1;
        }
        match &self.upload_id {
            Some(upload_id) => TransferEnd::Complete { upload_id: upload_id.clone(), parts },
            None => TransferEnd::Fail { error: String::new() },
        }
    }

    /// A request failed: the upload is aborted, if there is one.
    pub fn failed(&self, error: String) -> (r: TransferEnd)
        ensures
            failure(self@, error@, r),
            self@.upload_id is Some ==> r is Abort && Some(r->Abort_upload_id@) == self@.upload_id
                && r->Abort_error@ == error@,
            self@.upload_id is None ==> r is Fail && r->Fail_error@ == error@,
    {
        match &self.upload_id {
            Some(upload_id) => TransferEnd::Abort { upload_id: upload_id.clone(), error },
            None => TransferEnd::Fail { error },
        }
    }

    /// The completion ended: the upload is aborted where it failed.
    pub fn completed(&self, outcome: Result<(), String>) -> (r: TransferEnd)
        ensures
            completion(self@, outcome, r),
            outcome is Ok ==> r is Done,
            outcome is Err && self@.upload_id is Some ==> r is Abort && Some(r->Abort_upload_id@)
                == self@.upload_id && r->Abort_error@ == outcome->Err_0@,
            outcome is Err && self@.upload_id is None ==> r is Fail && r->Fail_error@
                == outcome->Err_0@,
    {
        match outcome {
            Ok(_) => TransferEnd::Done,
            Err(error) => self.failed(error),
        }
    }

    /// The upload that is to be aborted where the transfer is cancelled, if there is one.
    pub fn cancelled(self) -> (r: Option<String>)
        ensures
            opt_text(r) == self@.upload_id,
    {
        self.upload_id
    }
}

/// The error of an upload of a part, with what was being done.
pub fn transfer_error(streaming: bool, part_name: &str, cause: &str) -> (r: String)
    ensures
        r@ == if streaming {
            "Streaming multipart upload failed for part "@
        } else {
            "Multipart upload failed for part "@
        } + part_name@ + ": "@ + cause@,
{
    if streaming {
        "Streaming multipart upload failed for part ".to_string().concat(part_name).concat(
            ": ",
        ).concat(cause)
    } else {
        "Multipart upload failed for part ".to_string().concat(part_name).concat(": ").concat(cause)
    }
}

/// A transfer that was created ends in a completion that succeeded or in the abort of its
/// upload: a failure leads to the abort, the end of the chunks to the completion or the
/// abort, and a completion that failed to the abort, each of the same upload.
pub proof fn law_no_upload_is_left_behind(
    m: TransferModel,
    error: Seq<char>,
    outcome: Result<(), String>,
    after_failure: TransferEnd,
    after_chunks: TransferEnd,
    after_completion: TransferEnd,
)
    requires
        m.upload_id is Some,
        failure(m, error, after_failure),
        finishing(m, after_chunks),
        completion(m, outcome, after_completion),
    ensures
        after_failure matches TransferEnd::Abort { upload_id, error: e } && Some(upload_id@)
            == m.upload_id && e@ == error,
        match after_chunks {
            TransferEnd::Complete { upload_id, .. } => Some(upload_id@) == m.upload_id,
            TransferEnd::Abort { upload_id, .. } => Some(upload_id@) == m.upload_id,
            _ => false,
        },
        outcome is Ok ==> after_completion is Done,
        outcome matches Err(e) ==> (after_completion matches TransferEnd::Abort {
            upload_id,
            error: reported,
        } && Some(upload_id@) == m.upload_id && reported@ == e@),
{
}

} // verus!
