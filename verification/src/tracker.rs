//! Bookkeeping of download attempts for resume and cleanup: records keyed by
//! a generated identifier, status transitions, and the integrity decision
//! for a recorded file. Persisting the records to disk is the caller's
//! business; every rule about their content lives here.

use vstd::prelude::*;
use vstd::seq_lib::group_filter_ensures;
use crate::naming::{dec_chars, dec_string};
use crate::text::str_eq;

verus! {

broadcast use {group_filter_ensures, Seq::lemma_filter_push};

/// Where one download attempt stands.
#[derive(Clone, Copy, Debug, PartialEq, Eq, Structural)]
pub enum DownloadStatus {
    InProgress,
    Completed,
    Failed,
    Cancelled,
}

/// One recorded download attempt.
pub struct DownloadRecord {
    pub id: String,
    pub anime_name: String,
    pub episode: i32,
    pub slug: String,
    pub status: DownloadStatus,
    pub file_path: String,
    pub downloaded_bytes: u64,
    pub file_size: Option<u64>,
    pub started_at: i64,
    pub updated_at: i64,
    pub completed_at: Option<i64>,
    pub error_message: Option<String>,
    pub audio_type: Option<String>,
    pub resolution: Option<String>,
}

/// The record store. The first record with a given identifier is the one
/// the operations address.
pub struct DownloadTracker {
    pub records: Vec<DownloadRecord>,
}

/// Index of the first record carrying `id`, or -1.
pub open spec fn idx_of(rs: Seq<DownloadRecord>, id: Seq<char>) -> int
    decreases rs.len(),
{
    if rs.len() == 0 {
        -1
    } else if rs[0].id@ == id {
        0
    } else {
        let t = idx_of(rs.drop_first(), id);
        if t < 0 {
            -1
        } else {
            t + 1
        }
    }
}

/// The first index with `id` is what `idx_of` names.
pub proof fn lemma_idx_of_first(rs: Seq<DownloadRecord>, id: Seq<char>, k: int)
    requires
        0 <= k < rs.len(),
        rs[k].id@ == id,
        forall|m: int| 0 <= m < k ==> #[trigger] rs[m].id@ != id,
    ensures
        idx_of(rs, id) == k,
    decreases rs.len(),
{
    if k > 0 {
        assert(forall|m: int| 0 <= m < k - 1 ==> #[trigger] rs.drop_first()[m] == rs[m + 1]);
        assert(rs.drop_first()[k - 1] == rs[k]);
        lemma_idx_of_first(rs.drop_first(), id, k - 1);
    }
}

/// Without a carrier of `id` there is no index.
pub proof fn lemma_idx_of_none(rs: Seq<DownloadRecord>, id: Seq<char>)
    requires
        forall|m: int| 0 <= m < rs.len() ==> #[trigger] rs[m].id@ != id,
    ensures
        idx_of(rs, id) == -1,
    decreases rs.len(),
{
    if rs.len() > 0 {
        assert(forall|m: int|
            0 <= m < rs.len() - 1 ==> #[trigger] rs.drop_first()[m] == rs[m + 1]);
        lemma_idx_of_none(rs.drop_first(), id);
    }
}

/// What `idx_of` names carries `id`, with none before it.
pub proof fn lemma_idx_of_props(rs: Seq<DownloadRecord>, id: Seq<char>)
    ensures
        idx_of(rs, id) >= 0 ==> {
            &&& idx_of(rs, id) < rs.len()
            &&& rs[idx_of(rs, id)].id@ == id
            &&& forall|m: int| 0 <= m < idx_of(rs, id) ==> #[trigger] rs[m].id@ != id
        },
        idx_of(rs, id) == -1 ==> forall|m: int|
            0 <= m < rs.len() ==> #[trigger] rs[m].id@ != id,
    decreases rs.len(),
{
    if rs.len() > 0 {
        if rs[0].id@ == id {
        } else {
            lemma_idx_of_props(rs.drop_first(), id);
            assert(forall|m: int|
                0 <= m < rs.len() - 1 ==> #[trigger] rs.drop_first()[m] == rs[m + 1]);
            let t = idx_of(rs.drop_first(), id);
            if t >= 0 {
                assert(rs.drop_first()[t] == rs[t + 1]);
                assert forall|m: int| 0 <= m < t + 1 implies #[trigger] rs[m].id@ != id by {
                    if m > 0 {
                        assert(rs.drop_first()[m - 1].id@ != id);
                    }
                }
            } else {
                assert forall|m: int| 0 <= m < rs.len() implies #[trigger] rs[m].id@ != id by {
                    if m > 0 {
                        assert(rs.drop_first()[m - 1].id@ != id);
                    }
                }
            }
        }
    }
}

/// The decimal text of a signed value.
pub open spec fn int_dec_chars(n: int) -> Seq<char> {
    if n < 0 {
        seq!['-'] + dec_chars((-n) as nat)
    } else {
        dec_chars(n as nat)
    }
}

/// The identifier minted for one download attempt.
pub open spec fn download_id_spec(slug: Seq<char>, episode: int, now: int) -> Seq<char> {
    slug + "-ep"@ + int_dec_chars(episode) + "-"@ + int_dec_chars(now)
}

/// The decimal text of a signed value, as `int_dec_chars` describes.
fn int_to_dec_string(n: i64) -> (r: String)
    ensures
        r@ == int_dec_chars(n as int),
{
    if n >= 0 {
        let r = dec_string(n as u64);
        proof {
            assert(r@ == dec_chars(n as nat));
        }
        r
    } else {
        let mag: u64 = ((-(n + 1)) as u64) + 1;
        let mut out = String::from_str("-");
        proof {
            reveal_strlit("-");
        }
        let digits = dec_string(mag);
        out.append(digits.as_str());
        proof {
            assert(mag as nat == (-(n as int)) as nat);
            assert(out@ =~= seq!['-'] + dec_chars((-(n as int)) as nat));
        }
        out
    }
}

/// A record that still wants attention: in progress or failed.
pub open spec fn incomplete_pred() -> spec_fn(DownloadRecord) -> bool {
    |r: DownloadRecord| r.status is InProgress || r.status is Failed
}

/// A record of a finished attempt.
pub open spec fn completed_pred() -> spec_fn(DownloadRecord) -> bool {
    |r: DownloadRecord| r.status is Completed
}

impl DownloadTracker {
    /// An empty store.
    pub fn new() -> (r: DownloadTracker)
        ensures
            r.records@.len() == 0,
    {
        DownloadTracker { records: Vec::new() }
    }

    /// A store over records the caller loaded.
    pub fn from_records(records: Vec<DownloadRecord>) -> (r: DownloadTracker)
        ensures
            r.records == records,
    {
        DownloadTracker { records }
    }

    /// Finds the first record with `id`, as `idx_of` describes.
    #[verifier::loop_isolation(false)]
    fn find_index(&self, id: &str) -> (r: Option<usize>)
        ensures
            match r {
                Some(k) => idx_of(self.records@, id@) == k as int,
                None => idx_of(self.records@, id@) == -1,
            },
    {
        let mut k: usize = 0;
        while k < self.records.len()
            invariant
                0 <= k <= self.records@.len(),
                forall|m: int| 0 <= m < k ==> #[trigger] self.records@[m].id@ != id@,
            decreases self.records@.len() - k,
        {
            if str_eq(self.records[k].id.as_str(), id) {
                proof {
                    lemma_idx_of_first(self.records@, id@, k as int);
                }
                return Some(k);
            }
            k += 1;
        }
        proof {
            lemma_idx_of_none(self.records@, id@);
        }
        None
    }

    /// Mints the identifier and records a fresh in-progress attempt. An
    /// attempt that minted the same identifier is replaced in place;
    /// otherwise the record is appended.
    pub fn add_download(
        &mut self,
        anime_name: String,
        episode: i32,
        slug: String,
        file_path: String,
        audio_type: Option<String>,
        resolution: Option<String>,
        now: i64,
    ) -> (id: String)
        ensures
            id@ == download_id_spec(slug@, episode as int, now as int),
            ({
                let rec = final(self).records@[idx_of(final(self).records@, id@)];
                &&& idx_of(final(self).records@, id@) >= 0
                &&& rec.id@ == id@
                &&& rec.anime_name@ == anime_name@
                &&& rec.episode == episode
                &&& rec.slug@ == slug@
                &&& rec.status is InProgress
                &&& rec.file_path@ == file_path@
                &&& rec.downloaded_bytes == 0
                &&& rec.file_size is None
                &&& rec.started_at == now
                &&& rec.updated_at == now
                &&& rec.completed_at is None
                &&& rec.error_message is None
                &&& rec.audio_type == audio_type
                &&& rec.resolution == resolution
            }),
            idx_of(old(self).records@, download_id_spec(slug@, episode as int, now as int)) == -1
                ==> final(self).records@.len() == old(self).records@.len() + 1
                && final(self).records@.drop_last() == old(self).records@,
            idx_of(old(self).records@, download_id_spec(slug@, episode as int, now as int)) >= 0
                ==> final(self).records@ == old(self).records@.update(
                idx_of(old(self).records@, download_id_spec(slug@, episode as int, now as int)),
                final(self).records@[idx_of(
                    old(self).records@,
                    download_id_spec(slug@, episode as int, now as int),
                )],
            ),
    {
        let mut id = slug.clone();
        proof {
            reveal_strlit("-ep");
            reveal_strlit("-");
        }
        id.append("-ep");
        let ep_text = int_to_dec_string(episode as i64);
        id.append(ep_text.as_str());
        id.append("-");
        let now_text = int_to_dec_string(now);
        id.append(now_text.as_str());
        proof {
            assert(id@ =~= download_id_spec(slug@, episode as int, now as int));
        }
        let rec = DownloadRecord {
            id: id.clone(),
            anime_name,
            episode,
            slug,
            status: DownloadStatus::InProgress,
            file_path,
            downloaded_bytes: 0,
            file_size: None,
            started_at: now,
            updated_at: now,
            completed_at: None,
            error_message: None,
            audio_type,
            resolution,
        };
        match self.find_index(id.as_str()) {
            Some(k) => {
                proof {
                    lemma_idx_of_props(self.records@, id@);
                }
                let ghost before = self.records@;
                self.records.remove(k);
                self.records.insert(k, rec);
                proof {
                    assert(self.records@ =~= before.update(k as int, self.records@[k as int]));
                    assert(self.records@[k as int].id@ == id@);
                    assert forall|m: int| 0 <= m < k implies #[trigger] self.records@[m].id@
                        != id@ by {
                        assert(self.records@[m] == before[m]);
                    }
                    lemma_idx_of_first(self.records@, id@, k as int);
                }
            },
            None => {
                proof {
                    lemma_idx_of_props(self.records@, id@);
                }
                let ghost before = self.records@;
                self.records.push(rec);
                proof {
                    assert(self.records@.drop_last() =~= before);
                    lemma_idx_of_first(self.records@, id@, before.len() as int);
                }
            },
        }
        id
    }

    /// Updates the byte counters of one attempt; a missing identifier
    /// changes nothing.
    pub fn update_progress(
        &mut self,
        id: &str,
        downloaded_bytes: u64,
        file_size: Option<u64>,
        now: i64,
    )
        ensures
            idx_of(old(self).records@, id@) == -1 ==> *final(self) == *old(self),
            idx_of(old(self).records@, id@) >= 0 ==> {
                let j = idx_of(old(self).records@, id@);
                let prev = old(self).records@[j];
                final(self).records@ == old(self).records@.update(
                    j,
                    (DownloadRecord {
                        downloaded_bytes,
                        file_size: if file_size is Some {
                            file_size
                        } else {
                            prev.file_size
                        },
                        updated_at: now,
                        ..prev
                    }),
                )
            },
    {
        if let Some(k) = self.find_index(id) {
            proof {
                lemma_idx_of_props(self.records@, id@);
            }
            let ghost before = self.records@;
            let mut rec = self.records.remove(k);
            rec.downloaded_bytes = downloaded_bytes;
            if file_size.is_some() {
                rec.file_size = file_size;
            }
            rec.updated_at = now;
            self.records.insert(k, rec);
            proof {
                assert(self.records@ =~= before.update(k as int, self.records@[k as int]));
            }
        }
    }

    /// Marks one attempt completed; its byte counter is squared with the
    /// recorded size when one is known.
    pub fn mark_completed(&mut self, id: &str, now: i64)
        ensures
            idx_of(old(self).records@, id@) == -1 ==> *final(self) == *old(self),
            idx_of(old(self).records@, id@) >= 0 ==> {
                let j = idx_of(old(self).records@, id@);
                let prev = old(self).records@[j];
                final(self).records@ == old(self).records@.update(
                    j,
                    (DownloadRecord {
                        status: DownloadStatus::Completed,
                        updated_at: now,
                        completed_at: Some(now),
                        downloaded_bytes: match prev.file_size {
                            Some(size) => size,
                            None => prev.downloaded_bytes,
                        },
                        ..prev
                    }),
                )
            },
    {
        if let Some(k) = self.find_index(id) {
            proof {
                lemma_idx_of_props(self.records@, id@);
            }
            let ghost before = self.records@;
            let mut rec = self.records.remove(k);
            rec.status = DownloadStatus::Completed;
            rec.updated_at = now;
            rec.completed_at = Some(now);
            if let Some(size) = rec.file_size {
                rec.downloaded_bytes = size;
            }
            self.records.insert(k, rec);
            proof {
                assert(self.records@ =~= before.update(k as int, self.records@[k as int]));
            }
        }
    }

    /// Marks one attempt failed with its reason.
    pub fn mark_failed(&mut self, id: &str, error: String, now: i64)
        ensures
            idx_of(old(self).records@, id@) == -1 ==> *final(self) == *old(self),
            idx_of(old(self).records@, id@) >= 0 ==> {
                let j = idx_of(old(self).records@, id@);
                let prev = old(self).records@[j];
                &&& final(self).records@.len() == old(self).records@.len()
                &&& final(self).records@[j].status is Failed
                &&& final(self).records@[j].error_message matches Some(e) && e@ == error@
                &&& final(self).records@[j].updated_at == now
                &&& final(self).records@[j].id@ == prev.id@
                &&& forall|m: int|
                    0 <= m < final(self).records@.len() && m != j
                        ==> final(self).records@[m] == old(self).records@[m]
            },
    {
        if let Some(k) = self.find_index(id) {
            proof {
                lemma_idx_of_props(self.records@, id@);
            }
            let ghost before = self.records@;
            let mut rec = self.records.remove(k);
            rec.status = DownloadStatus::Failed;
            rec.error_message = Some(error);
            rec.updated_at = now;
            self.records.insert(k, rec);
            proof {
                assert(self.records@ =~= before.update(k as int, self.records@[k as int]));
            }
        }
    }

    /// Marks one attempt cancelled — a deliberate terminal state, not a
    /// failure.
    pub fn mark_cancelled(&mut self, id: &str, now: i64)
        ensures
            idx_of(old(self).records@, id@) == -1 ==> *final(self) == *old(self),
            idx_of(old(self).records@, id@) >= 0 ==> {
                let j = idx_of(old(self).records@, id@);
                let prev = old(self).records@[j];
                final(self).records@ == old(self).records@.update(
                    j,
                    (DownloadRecord {
                        status: DownloadStatus::Cancelled,
                        updated_at: now,
                        ..prev
                    }),
                )
            },
    {
        if let Some(k) = self.find_index(id) {
            proof {
                lemma_idx_of_props(self.records@, id@);
            }
            let ghost before = self.records@;
            let mut rec = self.records.remove(k);
            rec.status = DownloadStatus::Cancelled;
            rec.updated_at = now;
            self.records.insert(k, rec);
            proof {
                assert(self.records@ =~= before.update(k as int, self.records@[k as int]));
            }
        }
    }

    /// The records of attempts that still want attention, in store order.
    #[verifier::loop_isolation(false)]
    pub fn get_incomplete_downloads(&self) -> (r: Vec<&DownloadRecord>)
        ensures
            ({
                let kept = self.records@.filter(incomplete_pred());
                &&& r@.len() == kept.len()
                &&& forall|i: int| 0 <= i < r@.len() ==> *#[trigger] r@[i] == kept[i]
            }),
    {
        let ghost rs = self.records@;
        let mut out: Vec<&DownloadRecord> = Vec::new();
        let mut k: usize = 0;
        proof {
            assert(rs.subrange(0, 0) =~= Seq::<DownloadRecord>::empty());
            reveal(Seq::filter);
        }
        while k < self.records.len()
            invariant
                rs == self.records@,
                0 <= k <= rs.len(),
                out@.len() == rs.subrange(0, k as int).filter(incomplete_pred()).len(),
                forall|i: int|
                    0 <= i < out@.len() ==> *#[trigger] out@[i] == rs.subrange(0, k as int).filter(
                        incomplete_pred(),
                    )[i],
            decreases rs.len() - k,
        {
            let rec = &self.records[k];
            let hit = matches!(rec.status, DownloadStatus::InProgress | DownloadStatus::Failed);
            proof {
                assert(rs.subrange(0, k + 1) =~= rs.subrange(0, k as int).push(rs[k as int]));
            }
            if hit {
                out.push(rec);
                proof {
                    let kept = rs.subrange(0, k + 1).filter(incomplete_pred());
                    let kept_prev = rs.subrange(0, k as int).filter(incomplete_pred());
                    assert(kept == kept_prev.push(rs[k as int]));
                    assert forall|i: int| 0 <= i < out@.len() implies *#[trigger] out@[i]
                        == kept[i] by {
                        if i < out@.len() - 1 {
                            assert(kept[i] == kept_prev[i]);
                        }
                    }
                }
            }
            k += 1;
        }
        proof {
            assert(rs.subrange(0, rs.len() as int) =~= rs);
        }
        out
    }

    /// The first record with `id`, if any.
    pub fn get_download(&self, id: &str) -> (r: Option<&DownloadRecord>)
        ensures
            match r {
                Some(rec) => idx_of(self.records@, id@) >= 0 && *rec == self.records@[idx_of(
                    self.records@,
                    id@,
                )],
                None => idx_of(self.records@, id@) == -1,
            },
    {
        match self.find_index(id) {
            Some(k) => {
                proof {
                    lemma_idx_of_props(self.records@, id@);
                }
                Some(&self.records[k])
            },
            None => None,
        }
    }

    /// Drops the first record with `id`; a missing identifier changes
    /// nothing.
    pub fn remove_download(&mut self, id: &str)
        ensures
            idx_of(old(self).records@, id@) == -1 ==> *final(self) == *old(self),
            idx_of(old(self).records@, id@) >= 0 ==> final(self).records@ == old(
                self,
            ).records@.remove(idx_of(old(self).records@, id@)),
    {
        if let Some(k) = self.find_index(id) {
            proof {
                lemma_idx_of_props(self.records@, id@);
            }
            self.records.remove(k);
        }
    }

    /// Drops every completed record, keeping the rest in order.
    #[verifier::loop_isolation(false)]
    pub fn clear_completed(&mut self)
        ensures
            final(self).records@ == old(self).records@.filter(
                |r: DownloadRecord| !completed_pred()(r),
            ),
    {
        let ghost orig = self.records@;
        let total: usize = self.records.len();
        let mut kept: Vec<DownloadRecord> = Vec::new();
        let mut k: usize = 0;
        proof {
            assert(orig.len() == total as int);
            assert(orig.subrange(0, 0) =~= Seq::<DownloadRecord>::empty());
            reveal(Seq::filter);
        }
        while self.records.len() > 0
            invariant
                0 <= k,
                orig.len() <= usize::MAX,
                k + self.records@.len() == orig.len(),
                self.records@ == orig.subrange(k as int, orig.len() as int),
                kept@ == orig.subrange(0, k as int).filter(
                    |r: DownloadRecord| !completed_pred()(r),
                ),
            decreases self.records@.len(),
        {
            let ghost rest = self.records@;
            let rec = self.records.remove(0);
            proof {
                assert(rec == orig[k as int]);
                assert(self.records@ =~= orig.subrange(k + 1, orig.len() as int));
                assert(orig.subrange(0, k + 1) =~= orig.subrange(0, k as int).push(
                    orig[k as int],
                ));
            }
            let hit = !matches!(rec.status, DownloadStatus::Completed);
            if hit {
                kept.push(rec);
            }
            k += 1;
        }
        proof {
            assert(orig.subrange(0, k as int) =~= orig);
        }
        self.records = kept;
    }

    /// The integrity decision for one recorded file, from what the caller
    /// observed on disk: an unknown identifier decides nothing; a missing
    /// file is invalid; a completed attempt must match its recorded size
    /// exactly when one was recorded; anything else passes.
    pub fn validate_file(&self, id: &str, path_exists: bool, actual_size: Option<u64>) -> (r:
        Option<bool>)
        ensures
            idx_of(self.records@, id@) == -1 <==> r is None,
            idx_of(self.records@, id@) >= 0 ==> {
                let rec = self.records@[idx_of(self.records@, id@)];
                r == Some(
                    path_exists && !(rec.status is Completed && rec.file_size is Some
                        && actual_size != rec.file_size),
                )
            },
    {
        let rec = match self.get_download(id) {
            Some(rec) => rec,
            None => {
                return None;
            },
        };
        if !path_exists {
            return Some(false);
        }
        if matches!(rec.status, DownloadStatus::Completed) {
            if let Some(expected) = rec.file_size {
                match actual_size {
                    Some(actual) => {
                        return Some(actual == expected);
                    },
                    None => {
                        return Some(false);
                    },
                }
            }
        }
        Some(true)
    }
}

} // verus!
