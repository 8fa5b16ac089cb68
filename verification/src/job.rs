//! The state machine of one parallel-strategy download job. The caller's
//! runtime performs fetches, decrypts and the final assembly; this machine
//! decides what may start next, absorbs each outcome, and owns the job's
//! lifecycle: planning, downloading, decrypting, assembling, and the
//! terminal states. Its invariants carry the guarantees the pipeline is
//! built around: the concurrency bound is never exceeded, assembly begins
//! only when every segment is present (decrypted, when the plan is keyed),
//! progress counters never move backwards, and a cancelled job can never
//! reach the completed state, so the working directory of a cancelled job
//! is never deleted.

use vstd::prelude::*;
use crate::errors::DownloadError;
use crate::hexcodec::{hex_encode, hex_chars_of};
use crate::manifest::{SegmentPlan, plan_from_manifest, segment_urls_of};

verus! {

/// Where a job stands in its lifecycle.
#[derive(Clone, Copy, Debug, PartialEq, Eq, Structural)]
pub enum Phase {
    /// The manifest fetch is outstanding.
    Planning,
    /// The plan is keyed and the key fetch is outstanding.
    FetchingKey,
    /// Segment fetches run under the concurrency bound.
    Downloading,
    /// Segment decrypts run under the concurrency bound.
    Decrypting,
    /// The external tool concatenates the segments.
    Assembling,
    /// The job finished; the working directory may be removed.
    Done,
    /// The job failed; the working directory stays for inspection.
    Failed,
    /// The job was cancelled; the working directory stays.
    Cancelled,
}

/// The driver of one episode download under the parallel strategy.
pub struct JobMachine {
    /// Concurrency bound on outstanding segment operations, at least 1.
    pub threads: usize,
    /// The parsed plan, present once the manifest was absorbed.
    pub plan: Option<SegmentPlan>,
    /// Number of planned segments; meaningful once `plan` is present.
    pub segment_count: usize,
    /// Whether the plan names an encryption key.
    pub keyed: bool,
    /// The fetched key, hex-encoded, present once it arrived.
    pub key_hex: Option<String>,
    pub phase: Phase,
    /// Segment fetches handed out so far.
    pub fetch_started: usize,
    /// Segment fetches that completed.
    pub fetched: usize,
    /// Segment decrypts handed out so far.
    pub decrypt_started: usize,
    /// Segment decrypts that completed.
    pub decrypted: usize,
    /// The cooperative cancellation flag.
    pub cancel_requested: bool,
    /// Why the job failed, present exactly in the failed phase.
    pub error: Option<DownloadError>,
    /// Progress numerator: segments fetched.
    pub progress_done: u64,
    /// Progress denominator: planned segments, 0 before planning.
    pub progress_total: u64,
}

impl JobMachine {
    /// Segment operations currently outstanding.
    pub open spec fn in_flight(&self) -> int {
        (self.fetch_started - self.fetched) + (self.decrypt_started - self.decrypted)
    }

    /// The job has reached a terminal state.
    pub open spec fn is_terminal(&self) -> bool {
        self.phase is Done || self.phase is Failed || self.phase is Cancelled
    }

    /// The machine's invariant.
    pub open spec fn wf(&self) -> bool {
        &&& self.threads >= 1
        &&& self.fetched <= self.fetch_started <= self.segment_count
        &&& self.decrypted <= self.decrypt_started <= self.segment_count
        &&& match self.plan {
            Some(p) => {
                &&& self.segment_count == p.urls.len()
                &&& self.keyed == (p.key_uri is Some)
                &&& self.segment_count > 0
            },
            None => self.segment_count == 0,
        }
        &&& (self.phase is Planning ==> self.plan is None && self.fetch_started == 0
            && self.decrypt_started == 0)
        &&& (self.phase is FetchingKey ==> self.plan is Some && self.keyed
            && self.fetch_started == 0 && self.decrypt_started == 0)
        &&& (self.phase is Downloading ==> self.plan is Some && self.decrypt_started == 0
            && self.fetch_started - self.fetched <= self.threads)
        &&& (self.phase is Decrypting ==> self.plan is Some && self.keyed && self.fetched
            == self.segment_count && self.fetch_started == self.segment_count
            && self.decrypt_started - self.decrypted <= self.threads)
        &&& (self.phase is Assembling ==> self.plan is Some && self.fetched
            == self.segment_count && (self.keyed ==> self.decrypted == self.segment_count)
            && self.in_flight() == 0)
        &&& (self.phase is Done ==> self.plan is Some && self.fetched == self.segment_count && (
        self.keyed ==> self.decrypted == self.segment_count))
        &&& ((self.phase is Downloading || self.phase is Decrypting) && self.keyed
            ==> self.key_hex is Some)
        &&& (self.error is Some <==> self.phase is Failed)
        &&& (self.cancel_requested ==> self.phase is Cancelled || self.phase is Failed || ((
        self.phase is Downloading || self.phase is Decrypting) && self.in_flight() > 0))
        &&& self.progress_done == self.fetched as u64
        &&& self.progress_total == (if self.plan is Some {
            self.segment_count as u64
        } else {
            0u64
        })
    }

    /// A fresh job in the planning phase, with the thread budget clamped to
    /// at least one outstanding operation.
    pub fn new(threads: usize) -> (m: JobMachine)
        ensures
            m.wf(),
            m.phase is Planning,
            !m.cancel_requested,
            m.threads == if threads >= 1 {
                threads
            } else {
                1
            },
            m.progress_done == 0 && m.progress_total == 0,
    {
        JobMachine {
            threads: if threads >= 1 {
                threads
            } else {
                1
            },
            plan: None,
            segment_count: 0,
            keyed: false,
            key_hex: None,
            phase: Phase::Planning,
            fetch_started: 0,
            fetched: 0,
            decrypt_started: 0,
            decrypted: 0,
            cancel_requested: false,
            error: None,
            progress_done: 0,
            progress_total: 0,
        }
    }

    /// Absorbs the fetched manifest text. An empty plan fails the job at
    /// once, before any segment fetch; a keyed plan asks for the key first;
    /// otherwise downloading may begin. Returns whether a key fetch is owed.
    pub fn on_manifest(&mut self, manifest: &str) -> (r: Result<bool, DownloadError>)
        requires
            old(self).wf(),
            old(self).phase is Planning,
        ensures
            final(self).wf(),
            final(self).progress_done >= old(self).progress_done,
            final(self).progress_total >= old(self).progress_total,
            final(self).cancel_requested == old(self).cancel_requested,
            segment_urls_of(manifest@).len() == 0 ==> r == Result::<bool, DownloadError>::Err(
                DownloadError::EmptySegmentPlan,
            ) && final(self).phase is Failed,
            segment_urls_of(manifest@).len() > 0 ==> {
                &&& final(self).plan matches Some(p) && p.matches_manifest(manifest@)
                &&& final(self).segment_count == segment_urls_of(manifest@).len()
                &&& final(self).progress_total == final(self).segment_count as u64
                &&& r == Result::<bool, DownloadError>::Ok(final(self).keyed)
                &&& (final(self).keyed ==> final(self).phase is FetchingKey)
                &&& (!final(self).keyed ==> final(self).phase is Downloading)
            },
    {
        match plan_from_manifest(manifest) {
            Ok(p) => {
                let keyed = p.key_uri.is_some();
                self.segment_count = p.urls.len();
                self.keyed = keyed;
                self.plan = Some(p);
                self.progress_total = self.segment_count as u64;
                self.phase = if keyed {
                    Phase::FetchingKey
                } else {
                    Phase::Downloading
                };
                Ok(keyed)
            },
            Err(e) => {
                self.phase = Phase::Failed;
                self.error = Some(e);
                Err(e)
            },
        }
    }

    /// The manifest fetch itself failed: the job fails upstream.
    pub fn on_manifest_fetch_failed(&mut self)
        requires
            old(self).wf(),
            old(self).phase is Planning,
        ensures
            final(self).wf(),
            final(self).phase is Failed,
            final(self).error == Some(DownloadError::UpstreamHttp),
            final(self).progress_done >= old(self).progress_done,
            final(self).progress_total >= old(self).progress_total,
    {
        self.phase = Phase::Failed;
        self.error = Some(DownloadError::UpstreamHttp);
    }

    /// The key bytes arrived: the job keeps them hex-encoded, as the
    /// decrypt step consumes them, and downloading may begin.
    pub fn on_key_fetched(&mut self, key: &Vec<u8>)
        requires
            old(self).wf(),
            old(self).phase is FetchingKey,
        ensures
            final(self).wf(),
            final(self).phase is Downloading,
            final(self).key_hex matches Some(h) && h@ == hex_chars_of(key@),
            final(self).progress_done >= old(self).progress_done,
            final(self).progress_total >= old(self).progress_total,
    {
        self.key_hex = Some(hex_encode(key));
        self.phase = Phase::Downloading;
    }

    /// The key fetch failed terminally.
    pub fn on_key_fetch_failed(&mut self)
        requires
            old(self).wf(),
            old(self).phase is FetchingKey,
        ensures
            final(self).wf(),
            final(self).phase is Failed,
            final(self).error == Some(DownloadError::KeyFetchFailed),
            final(self).progress_done >= old(self).progress_done,
            final(self).progress_total >= old(self).progress_total,
    {
        self.phase = Phase::Failed;
        self.error = Some(DownloadError::KeyFetchFailed);
    }

    /// Hands out the next segment fetch when the bound allows one and
    /// cancellation was not requested; winds the job down to the cancelled
    /// state when cancellation was requested and nothing is outstanding.
    pub fn start_next_fetch(&mut self) -> (r: Option<usize>)
        requires
            old(self).wf(),
            old(self).phase is Downloading,
        ensures
            final(self).wf(),
            final(self).progress_done >= old(self).progress_done,
            final(self).progress_total >= old(self).progress_total,
            match r {
                Some(i) => {
                    &&& !old(self).cancel_requested
                    &&& i == old(self).fetch_started
                    &&& i < final(self).segment_count
                    &&& final(self).fetch_started == i + 1
                    &&& old(self).in_flight() < final(self).threads
                    &&& final(self).phase is Downloading
                },
                None => {
                    &&& final(self).fetch_started == old(self).fetch_started
                    &&& (!old(self).cancel_requested ==> old(self).fetch_started
                        == final(self).segment_count || old(self).in_flight() == final(self).threads)
                },
            },
            final(self).in_flight() <= final(self).threads,
    {
        if self.cancel_requested {
            if self.fetch_started == self.fetched {
                self.phase = Phase::Cancelled;
            }
            return None;
        }
        if self.fetch_started < self.segment_count && self.fetch_started - self.fetched
            < self.threads {
            let i = self.fetch_started;
            self.fetch_started = i + 1;
            return Some(i);
        }
        None
    }

    /// One segment fetch completed: progress advances, and when the last
    /// segment landed the job moves on to decrypting or assembling — unless
    /// cancellation is winding it down.
    pub fn on_segment_fetched(&mut self)
        requires
            old(self).wf(),
            old(self).phase is Downloading,
            old(self).fetched < old(self).fetch_started,
        ensures
            final(self).wf(),
            final(self).fetched == old(self).fetched + 1,
            final(self).progress_done == old(self).progress_done + 1,
            final(self).progress_total == old(self).progress_total,
            old(self).cancel_requested ==> !(final(self).phase is Done) && !(final(self).phase is Assembling),
            !old(self).cancel_requested ==> {
                &&& (final(self).fetched == final(self).segment_count && final(self).keyed ==> final(self).phase
                    is Decrypting)
                &&& (final(self).fetched == final(self).segment_count && !final(self).keyed ==> final(self).phase
                    is Assembling)
                &&& (final(self).fetched < final(self).segment_count ==> final(self).phase is Downloading)
            },
    {
        self.fetched = self.fetched + 1;
        self.progress_done = self.progress_done + 1;
        if self.cancel_requested {
            if self.fetched == self.fetch_started {
                self.phase = Phase::Cancelled;
            }
            return ;
        }
        if self.fetched == self.segment_count {
            if self.keyed {
                self.phase = Phase::Decrypting;
            } else {
                self.phase = Phase::Assembling;
            }
        }
    }

    /// One segment fetch failed terminally: fail fast, the whole job fails
    /// and no assembly will be attempted.
    pub fn on_segment_fetch_failed(&mut self, index: usize)
        requires
            old(self).wf(),
            old(self).phase is Downloading,
        ensures
            final(self).wf(),
            final(self).phase is Failed,
            final(self).error == Some(DownloadError::SegmentFetchFailed { index }),
            final(self).progress_done >= old(self).progress_done,
            final(self).progress_total >= old(self).progress_total,
    {
        self.phase = Phase::Failed;
        self.error = Some(DownloadError::SegmentFetchFailed { index });
    }

    /// Hands out the next decrypt under the same bound and cancellation
    /// rules as fetching.
    pub fn start_next_decrypt(&mut self) -> (r: Option<usize>)
        requires
            old(self).wf(),
            old(self).phase is Decrypting,
        ensures
            final(self).wf(),
            final(self).progress_done >= old(self).progress_done,
            final(self).progress_total >= old(self).progress_total,
            match r {
                Some(i) => {
                    &&& !old(self).cancel_requested
                    &&& i == old(self).decrypt_started
                    &&& i < final(self).segment_count
                    &&& final(self).decrypt_started == i + 1
                    &&& old(self).in_flight() < final(self).threads
                    &&& final(self).phase is Decrypting
                },
                None => {
                    &&& final(self).decrypt_started == old(self).decrypt_started
                    &&& (!old(self).cancel_requested ==> old(self).decrypt_started
                        == final(self).segment_count || old(self).in_flight() == final(self).threads)
                },
            },
            final(self).in_flight() <= final(self).threads,
    {
        if self.cancel_requested {
            if self.decrypt_started == self.decrypted {
                self.phase = Phase::Cancelled;
            }
            return None;
        }
        if self.decrypt_started < self.segment_count && self.decrypt_started - self.decrypted
            < self.threads {
            let i = self.decrypt_started;
            self.decrypt_started = i + 1;
            return Some(i);
        }
        None
    }

    /// One segment decrypt completed; after the last one the job assembles —
    /// unless cancellation is winding it down.
    pub fn on_segment_decrypted(&mut self)
        requires
            old(self).wf(),
            old(self).phase is Decrypting,
            old(self).decrypted < old(self).decrypt_started,
        ensures
            final(self).wf(),
            final(self).decrypted == old(self).decrypted + 1,
            final(self).progress_done >= old(self).progress_done,
            final(self).progress_total >= old(self).progress_total,
            old(self).cancel_requested ==> !(final(self).phase is Done) && !(final(self).phase is Assembling),
            !old(self).cancel_requested ==> {
                &&& (final(self).decrypted == final(self).segment_count ==> final(self).phase is Assembling)
                &&& (final(self).decrypted < final(self).segment_count ==> final(self).phase is Decrypting)
            },
    {
        self.decrypted = self.decrypted + 1;
        if self.cancel_requested {
            if self.decrypted == self.decrypt_started {
                self.phase = Phase::Cancelled;
            }
            return ;
        }
        if self.decrypted == self.segment_count {
            self.phase = Phase::Assembling;
        }
    }

    /// One segment decrypt failed terminally: the whole job fails.
    pub fn on_segment_decrypt_failed(&mut self, index: usize)
        requires
            old(self).wf(),
            old(self).phase is Decrypting,
        ensures
            final(self).wf(),
            final(self).phase is Failed,
            final(self).error == Some(DownloadError::SegmentDecryptFailed { index }),
            final(self).progress_done >= old(self).progress_done,
            final(self).progress_total >= old(self).progress_total,
    {
        self.phase = Phase::Failed;
        self.error = Some(DownloadError::SegmentDecryptFailed { index });
    }

    /// Assembly finished: the job is done. This is the only place that
    /// allows removing the working directory, and it is unreachable once
    /// cancellation was requested.
    pub fn on_assembly_finished(&mut self) -> (remove_workdir: bool)
        requires
            old(self).wf(),
            old(self).phase is Assembling,
        ensures
            final(self).wf(),
            final(self).phase is Done,
            remove_workdir,
            final(self).fetched == final(self).segment_count,
            final(self).keyed ==> final(self).decrypted == final(self).segment_count,
            final(self).progress_done >= old(self).progress_done,
            final(self).progress_total >= old(self).progress_total,
    {
        self.phase = Phase::Done;
        true
    }

    /// Assembly failed, or the tool was missing: the job fails and the
    /// working directory stays behind.
    pub fn on_assembly_failed(&mut self, tool_missing: bool)
        requires
            old(self).wf(),
            old(self).phase is Assembling,
        ensures
            final(self).wf(),
            final(self).phase is Failed,
            final(self).error == Some(
                if tool_missing {
                    DownloadError::ToolMissing
                } else {
                    DownloadError::ExternalToolFailed
                },
            ),
            final(self).progress_done >= old(self).progress_done,
            final(self).progress_total >= old(self).progress_total,
    {
        self.phase = Phase::Failed;
        self.error = Some(
            if tool_missing {
                DownloadError::ToolMissing
            } else {
                DownloadError::ExternalToolFailed
            },
        );
    }

    /// Requests cooperative cancellation. A terminal job is left alone; an
    /// idle job is cancelled at once; a job with outstanding operations
    /// keeps the flag and winds down as they complete.
    pub fn request_cancel(&mut self)
        requires
            old(self).wf(),
        ensures
            final(self).wf(),
            old(self).is_terminal() ==> *final(self) == *old(self),
            !old(self).is_terminal() ==> final(self).cancel_requested && !(final(self).phase is Done)
                && !(final(self).phase is Assembling),
            !old(self).is_terminal() && old(self).in_flight() == 0 ==> final(self).phase is Cancelled,
            final(self).progress_done >= old(self).progress_done,
            final(self).progress_total >= old(self).progress_total,
    {
        if matches!(self.phase, Phase::Done | Phase::Failed | Phase::Cancelled) {
            return ;
        }
        self.cancel_requested = true;
        let outstanding = (self.fetch_started - self.fetched) + (self.decrypt_started
            - self.decrypted);
        if outstanding == 0 {
            self.phase = Phase::Cancelled;
        }
    }

    /// The progress pair `(done, total)` the coordinator samples.
    pub fn progress(&self) -> (r: (u64, u64))
        ensures
            r.0 == self.progress_done,
            r.1 == self.progress_total,
    {
        (self.progress_done, self.progress_total)
    }
}

/// Law: a well-formed job on which cancellation has been requested is not
/// in the completed phase, so the cleanup that only completion triggers can
/// never have happened after a cancellation.
pub proof fn lemma_cancelled_never_done(m: JobMachine)
    requires
        m.wf(),
        m.cancel_requested,
    ensures
        !(m.phase is Done),
        !(m.phase is Assembling),
{
}

/// Law: a well-formed job that is assembling or done fetched every planned
/// segment, and decrypted every one when the plan was keyed: assembly never
/// starts from a partial working set.
pub proof fn lemma_assembly_complete(m: JobMachine)
    requires
        m.wf(),
        m.phase is Assembling || m.phase is Done,
    ensures
        m.fetched == m.segment_count,
        m.keyed ==> m.decrypted == m.segment_count,
        m.segment_count > 0,
{
}

/// The lifecycle status line of a phase, as surfaced to the caller.
pub open spec fn status_label_spec(m: JobMachine) -> Seq<char> {
    match m.phase {
        Phase::Planning => "Fetching link"@,
        Phase::FetchingKey => "Extracting playlist"@,
        Phase::Downloading => "Downloading"@,
        Phase::Decrypting => "Downloading"@,
        Phase::Assembling => "Downloading"@,
        Phase::Done => "Done"@,
        Phase::Cancelled => "Cancelled"@,
        Phase::Failed => "Failed: "@ + match m.error {
            Some(e) => crate::errors::error_label(e),
            None => Seq::empty(),
        },
    }
}

impl JobMachine {
    /// The status line of the job's current phase: one of the coarse
    /// lifecycle strings, with a failure carrying its reason.
    pub fn status_label(&self) -> (r: String)
        ensures
            r@ == status_label_spec(*self),
    {
        match self.phase {
            Phase::Planning => String::from_str("Fetching link"),
            Phase::FetchingKey => String::from_str("Extracting playlist"),
            Phase::Downloading => String::from_str("Downloading"),
            Phase::Decrypting => String::from_str("Downloading"),
            Phase::Assembling => String::from_str("Downloading"),
            Phase::Done => String::from_str("Done"),
            Phase::Cancelled => String::from_str("Cancelled"),
            Phase::Failed => {
                let mut out = String::from_str("Failed: ");
                match &self.error {
                    Some(e) => {
                        let reason = e.describe();
                        out.append(reason.as_str());
                    },
                    None => {},
                }
                out
            },
        }
    }
}

} // verus!
