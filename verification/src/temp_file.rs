use crate::errors::TypedMultipartError;
use vstd::prelude::*;

verus! {

/// A disk-backed, uniquely named scratch object holding one part's streamed
/// content until persisted or reclaimed.
///
/// The handle owns a filesystem path and a byte length, and carries in ghost
/// state the exact bytes that were streamed into the backing file, so that
/// `persist` can promise the content it hands over byte for byte. The caller
/// that owns the real file descriptors builds the handle through a
/// [`TempSink`] and performs the actual writes; a handle never persisted must
/// have its backing file deleted when its owning assembly run ends.
pub struct TempFile {
    path: String,
    len: u64,
    consumed: bool,
    contents: Ghost<Seq<u8>>,
}

/// The copy work `persist` hands back to its caller: move or copy the bytes
/// at `source_path` to `target_path`. The ghost field records the exact bytes
/// owed at the target.
pub struct PersistJob {
    pub source_path: String,
    pub target_path: String,
    pub bytes: Ghost<Seq<u8>>,
}

impl TempFile {
    /// The path of the backing file inside the configured root directory.
    pub closed spec fn spec_path(&self) -> Seq<char> {
        self.path@
    }

    /// The bytes streamed into the backing file.
    pub closed spec fn bytes(&self) -> Seq<u8> {
        self.contents@
    }

    /// Whether a call to `persist` has already consumed this handle.
    pub closed spec fn is_consumed(&self) -> bool {
        self.consumed
    }

    /// The recorded length agrees with the streamed bytes.
    pub closed spec fn wf(&self) -> bool {
        self.len as nat == self.contents@.len()
    }

    /// The path of the backing file.
    pub fn path(&self) -> (p: &String)
        ensures
            p@ == self.spec_path(),
    {
        &self.path
    }

    /// The number of bytes streamed into the backing file.
    pub fn len(&self) -> (n: u64)
        requires
            self.wf(),
        ensures
            n as nat == self.bytes().len(),
    {
        self.len
    }

    /// Consumes the handle (no fresh job can be produced afterwards) and
    /// returns the copy job moving the streamed bytes to the caller-chosen
    /// `target_path`; `target_exists` is the caller's observation of whether
    /// a file already stands at that path.
    ///
    /// Fails with `IOError`, leaving the handle and the backing file exactly
    /// as they were, when the handle was already consumed or when the target
    /// exists and `overwrite` is false; there is no automatic retry, a fresh
    /// call with a corrected path or `overwrite` set is required.
    pub fn persist(&mut self, target_path: String, target_exists: bool, overwrite: bool) -> (r:
        Result<PersistJob, TypedMultipartError>)
        ensures
            r is Ok <==> (!old(self).is_consumed() && (overwrite || !target_exists)),
            r is Err ==> r->Err_0 is IOError && *final(self) == *old(self),
            r is Ok ==> ({
                let job = r->Ok_0;
                &&& job.bytes@ == old(self).bytes()
                &&& job.source_path@ == old(self).spec_path()
                &&& job.target_path@ == target_path@
                &&& final(self).is_consumed()
                &&& final(self).bytes() == old(self).bytes()
                &&& final(self).spec_path() == old(self).spec_path()
                &&& final(self).wf() == old(self).wf()
            }),
    {
        if self.consumed {
            return Err(TypedMultipartError::IOError);
        }
        if target_exists && !overwrite {
            return Err(TypedMultipartError::IOError);
        }
        self.consumed = true;
        Ok(
            PersistJob {
                source_path: self.path.clone(),
                target_path,
                bytes: Ghost(self.contents@),
            },
        )
    }
}

/// Streams one part's body to a freshly created, uniquely named file, chunk
/// by chunk, in bounded memory.
///
/// The caller that owns the real file descriptor creates the file, reports
/// each chunk it wrote in stream order, and on success turns the sink into
/// the [`TempFile`] handle; on a stream or write failure it aborts the sink
/// and deletes the partially written file before reporting the error.
pub struct TempSink {
    path: String,
    written: u64,
    contents: Ghost<Seq<u8>>,
}

impl TempSink {
    /// The path of the file being written.
    pub closed spec fn spec_path(&self) -> Seq<char> {
        self.path@
    }

    /// The bytes recorded so far, in stream order.
    pub closed spec fn bytes(&self) -> Seq<u8> {
        self.contents@
    }

    /// The recorded length agrees with the recorded bytes.
    pub closed spec fn wf(&self) -> bool {
        self.written as nat == self.contents@.len()
    }

    /// Opens a sink for the uniquely named file the caller just created at
    /// `path`, with nothing written yet.
    pub fn open(path: String) -> (s: TempSink)
        ensures
            s.wf(),
            s.spec_path() == path@,
            s.bytes() =~= Seq::<u8>::empty(),
    {
        TempSink { path, written: 0, contents: Ghost(Seq::empty()) }
    }

    /// Records one chunk appended to the backing file, in stream order.
    ///
    /// Fails with `IOError`, leaving the sink unchanged, only when the total
    /// length can no longer be represented; the caller then aborts the sink.
    pub fn record_chunk(&mut self, chunk: &Vec<u8>) -> (r: Result<(), TypedMultipartError>)
        requires
            old(self).wf(),
        ensures
            final(self).wf(),
            r is Ok <==> old(self).bytes().len() + chunk@.len() <= u64::MAX,
            r is Ok ==> final(self).bytes() == old(self).bytes() + chunk@,
            r is Ok ==> final(self).spec_path() == old(self).spec_path(),
            r is Err ==> r->Err_0 is IOError && *final(self) == *old(self),
    {
        let chunk_len: u64 = chunk.len() as u64;
        match self.written.checked_add(chunk_len) {
            Some(total) => {
                self.written = total;
                self.contents = Ghost(self.contents@ + chunk@);
                Ok(())
            },
            None => Err(TypedMultipartError::IOError),
        }
    }

    /// Ends the stream successfully: the sink becomes the temp-file handle,
    /// owning exactly the bytes recorded, not yet consumed.
    pub fn finish(self) -> (f: TempFile)
        requires
            self.wf(),
        ensures
            f.wf(),
            !f.is_consumed(),
            f.bytes() == self.bytes(),
            f.spec_path() == self.spec_path(),
    {
        TempFile { path: self.path, len: self.written, consumed: false, contents: self.contents }
    }

    /// Ends the stream on failure: hands back the path of the partially
    /// written file so the caller deletes it before returning the error.
    pub fn abort(self) -> (p: String)
        ensures
            p@ == self.spec_path(),
    {
        self.path
    }
}

} // verus!
