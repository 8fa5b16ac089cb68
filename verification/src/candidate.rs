//! Playback source candidates and the deterministic selection rule: drop
//! AV1-flagged variants, narrow by audio preference when it matches anything,
//! then by resolution preference likewise, and finally prefer the last
//! candidate on the preferred delivery host, else the last candidate overall.

use vstd::prelude::*;
use vstd::seq_lib::group_filter_ensures;
use vstd::slice::slice_index_get;
use crate::text::{has_substr, contains_sub, opt_str_eq};

verus! {

broadcast use {group_filter_ensures, Seq::lemma_filter_push};

/// One playback source scraped from a play page.
pub struct Candidate {
    pub src: String,
    pub audio: Option<String>,
    pub resolution: Option<String>,
    pub av1: Option<String>,
}

/// The candidate is flagged as the AV1-encoded variant.
pub open spec fn flagged_av1(c: Candidate) -> bool {
    match c.av1 {
        Some(s) => s@ == "1"@,
        None => false,
    }
}

/// The candidate's audio track label equals `a`.
pub open spec fn audio_is(c: Candidate, a: Seq<char>) -> bool {
    match c.audio {
        Some(s) => s@ == a,
        None => false,
    }
}

/// The candidate's resolution label equals `r`.
pub open spec fn resolution_is(c: Candidate, r: Seq<char>) -> bool {
    match c.resolution {
        Some(s) => s@ == r,
        None => false,
    }
}

/// The candidate's location names the preferred delivery host.
pub open spec fn on_preferred_host(c: Candidate) -> bool {
    has_substr(c.src@, "kwik"@)
}

/// The AV1 exclusion, as a predicate value shared by spec and proofs.
pub open spec fn not_av1_pred() -> spec_fn(Candidate) -> bool {
    |c: Candidate| !flagged_av1(c)
}

/// The audio-preference match as a predicate value.
pub open spec fn audio_pred(a: Seq<char>) -> spec_fn(Candidate) -> bool {
    |c: Candidate| audio_is(c, a)
}

/// The resolution-preference match as a predicate value.
pub open spec fn resolution_pred(r: Seq<char>) -> spec_fn(Candidate) -> bool {
    |c: Candidate| resolution_is(c, r)
}

/// The preferred-host test as a predicate value.
pub open spec fn preferred_pred() -> spec_fn(Candidate) -> bool {
    |c: Candidate| on_preferred_host(c)
}

/// Candidates that remain after the AV1 exclusion.
pub open spec fn survivors(cs: Seq<Candidate>) -> Seq<Candidate> {
    cs.filter(not_av1_pred())
}

/// Narrowing by audio preference: keep the matches when there are any,
/// otherwise keep the pool unchanged.
pub open spec fn narrow_audio(pool: Seq<Candidate>, pref: Option<Seq<char>>) -> Seq<Candidate> {
    match pref {
        None => pool,
        Some(a) => {
            let m = pool.filter(audio_pred(a));
            if m.len() > 0 {
                m
            } else {
                pool
            }
        },
    }
}

/// Narrowing by resolution preference, with the same keep-on-mismatch rule.
pub open spec fn narrow_resolution(pool: Seq<Candidate>, pref: Option<Seq<char>>) -> Seq<
    Candidate,
> {
    match pref {
        None => pool,
        Some(r) => {
            let m = pool.filter(resolution_pred(r));
            if m.len() > 0 {
                m
            } else {
                pool
            }
        },
    }
}

/// The pool that the tie-break rule chooses from.
pub open spec fn selection_pool(
    cs: Seq<Candidate>,
    audio: Option<Seq<char>>,
    resolution: Option<Seq<char>>,
) -> Seq<Candidate> {
    narrow_resolution(narrow_audio(survivors(cs), audio), resolution)
}

/// The full selection rule: from the narrowed pool, the last candidate on the
/// preferred host, else the last candidate; `None` only when the pool is empty.
pub open spec fn select_spec(
    cs: Seq<Candidate>,
    audio: Option<Seq<char>>,
    resolution: Option<Seq<char>>,
) -> Option<Candidate> {
    let pool = selection_pool(cs, audio, resolution);
    if pool.len() == 0 {
        None
    } else {
        let preferred = pool.filter(preferred_pred());
        if preferred.len() > 0 {
            Some(preferred.last())
        } else {
            Some(pool.last())
        }
    }
}

/// The view of an optional preference argument.
pub open spec fn pref_view(p: Option<&str>) -> Option<Seq<char>> {
    match p {
        Some(s) => Some(s@),
        None => None,
    }
}

/// The candidates named by a sequence of indices into `cs`.
pub open spec fn picked(cs: Seq<Candidate>, idxs: Seq<usize>) -> Seq<Candidate> {
    Seq::new(idxs.len(), |k: int| cs[idxs[k] as int])
}

/// All indices in `idxs` lie below `n`.
pub open spec fn idxs_below(idxs: Seq<usize>, n: int) -> bool {
    forall|k: int| 0 <= k < idxs.len() ==> idxs[k] < n
}

/// Every member of the survivor pool passed the AV1 exclusion.
proof fn lemma_survivor_not_av1(cs: Seq<Candidate>, e: Candidate)
    requires
        survivors(cs).contains(e),
    ensures
        !flagged_av1(e),
{
    let pool = survivors(cs);
    let i = choose|i: int| 0 <= i < pool.len() && pool[i] == e;
    assert(not_av1_pred()(pool[i]));
}

/// Audio narrowing never invents candidates: members come from the input pool.
proof fn lemma_narrow_audio_contains(pool: Seq<Candidate>, pref: Option<Seq<char>>, e: Candidate)
    requires
        narrow_audio(pool, pref).contains(e),
    ensures
        pool.contains(e),
{
    match pref {
        None => {},
        Some(a) => {
            let m = pool.filter(audio_pred(a));
            if m.len() > 0 {
                pool.lemma_filter_contains_rev(audio_pred(a), e);
            }
        },
    }
}

/// Resolution narrowing never invents candidates either.
proof fn lemma_narrow_resolution_contains(
    pool: Seq<Candidate>,
    pref: Option<Seq<char>>,
    e: Candidate,
)
    requires
        narrow_resolution(pool, pref).contains(e),
    ensures
        pool.contains(e),
{
    match pref {
        None => {},
        Some(r) => {
            let m = pool.filter(resolution_pred(r));
            if m.len() > 0 {
                pool.lemma_filter_contains_rev(resolution_pred(r), e);
            }
        },
    }
}

/// Whatever selection returns is a member of the narrowed pool.
pub proof fn lemma_selected_in_pool(
    cs: Seq<Candidate>,
    audio: Option<Seq<char>>,
    resolution: Option<Seq<char>>,
)
    ensures
        select_spec(cs, audio, resolution) matches Some(c) ==> selection_pool(
            cs,
            audio,
            resolution,
        ).contains(c),
{
    let pool = selection_pool(cs, audio, resolution);
    if pool.len() > 0 {
        let preferred = pool.filter(preferred_pred());
        if preferred.len() > 0 {
            assert(preferred.contains(preferred.last()));
            pool.lemma_filter_contains_rev(preferred_pred(), preferred.last());
        } else {
            assert(pool.contains(pool.last()));
        }
    }
}

/// Law: on a candidate list with at least one non-AV1 entry, selection
/// succeeds and never returns an AV1-flagged entry.
pub proof fn lemma_select_never_av1(
    cs: Seq<Candidate>,
    audio: Option<Seq<char>>,
    resolution: Option<Seq<char>>,
)
    requires
        exists|i: int| 0 <= i < cs.len() && !flagged_av1(cs[i]),
    ensures
        select_spec(cs, audio, resolution) is Some,
        select_spec(cs, audio, resolution) matches Some(c) ==> !flagged_av1(c),
{
    let i = choose|i: int| 0 <= i < cs.len() && !flagged_av1(cs[i]);
    cs.lemma_filter_contains(not_av1_pred(), i);
    let pool = selection_pool(cs, audio, resolution);
    assert(survivors(cs).len() > 0);
    assert(narrow_audio(survivors(cs), audio).len() > 0);
    assert(pool.len() > 0);
    lemma_selected_in_pool(cs, audio, resolution);
    let c = select_spec(cs, audio, resolution)->Some_0;
    lemma_narrow_resolution_contains(narrow_audio(survivors(cs), audio), resolution, c);
    lemma_narrow_audio_contains(survivors(cs), audio, c);
    lemma_survivor_not_av1(cs, c);
}

/// Law: when the audio preference matches at least one surviving candidate,
/// selection succeeds and the chosen candidate carries that audio label.
pub proof fn lemma_select_honours_audio(
    cs: Seq<Candidate>,
    a: Seq<char>,
    resolution: Option<Seq<char>>,
)
    requires
        exists|i: int|
            0 <= i < survivors(cs).len() && audio_is(#[trigger] survivors(cs)[i], a),
    ensures
        select_spec(cs, Some(a), resolution) is Some,
        select_spec(cs, Some(a), resolution) matches Some(c) ==> audio_is(c, a),
{
    let base = survivors(cs);
    let i = choose|i: int| 0 <= i < base.len() && audio_is(base[i], a);
    base.lemma_filter_contains(audio_pred(a), i);
    let m = base.filter(audio_pred(a));
    assert(m.len() > 0);
    assert(narrow_audio(base, Some(a)) == m);
    let pool = selection_pool(cs, Some(a), resolution);
    assert(pool.len() > 0);
    lemma_selected_in_pool(cs, Some(a), resolution);
    let c = select_spec(cs, Some(a), resolution)->Some_0;
    lemma_narrow_resolution_contains(m, resolution, c);
    let j = choose|j: int| 0 <= j < m.len() && m[j] == c;
    assert(audio_pred(a)(m[j]));
}

/// Law: when the resolution preference matches at least one candidate left
/// after the audio step, selection succeeds and the chosen candidate carries
/// that resolution label.
pub proof fn lemma_select_honours_resolution(
    cs: Seq<Candidate>,
    audio: Option<Seq<char>>,
    r: Seq<char>,
)
    requires
        exists|i: int|
            0 <= i < narrow_audio(survivors(cs), audio).len() && resolution_is(
                #[trigger] narrow_audio(survivors(cs), audio)[i],
                r,
            ),
    ensures
        select_spec(cs, audio, Some(r)) is Some,
        select_spec(cs, audio, Some(r)) matches Some(c) ==> resolution_is(c, r),
{
    let base = narrow_audio(survivors(cs), audio);
    let i = choose|i: int| 0 <= i < base.len() && resolution_is(base[i], r);
    base.lemma_filter_contains(resolution_pred(r), i);
    let m = base.filter(resolution_pred(r));
    assert(m.len() > 0);
    assert(selection_pool(cs, audio, Some(r)) == m);
    lemma_selected_in_pool(cs, audio, Some(r));
    let c = select_spec(cs, audio, Some(r))->Some_0;
    let j = choose|j: int| 0 <= j < m.len() && m[j] == c;
    assert(resolution_pred(r)(m[j]));
}

/// Law: an audio preference that matches no surviving candidate is ignored:
/// selection behaves as if no audio preference had been given.
pub proof fn lemma_unmatched_audio_ignored(
    cs: Seq<Candidate>,
    a: Seq<char>,
    resolution: Option<Seq<char>>,
)
    requires
        forall|i: int| 0 <= i < survivors(cs).len() ==> !audio_is(#[trigger] survivors(cs)[i], a),
    ensures
        select_spec(cs, Some(a), resolution) == select_spec(cs, None, resolution),
{
    let base = survivors(cs);
    base.lemma_all_neg_filter_empty(audio_pred(a));
    assert(narrow_audio(base, Some(a)) == base);
    assert(narrow_audio(base, None) == base);
}

/// Law: a resolution preference that matches nothing left after the audio
/// step is ignored likewise.
pub proof fn lemma_unmatched_resolution_ignored(
    cs: Seq<Candidate>,
    audio: Option<Seq<char>>,
    r: Seq<char>,
)
    requires
        forall|i: int|
            0 <= i < narrow_audio(survivors(cs), audio).len() ==> !resolution_is(
                #[trigger] narrow_audio(survivors(cs), audio)[i],
                r,
            ),
    ensures
        select_spec(cs, audio, Some(r)) == select_spec(cs, audio, None),
{
    let base = narrow_audio(survivors(cs), audio);
    base.lemma_all_neg_filter_empty(resolution_pred(r));
    assert(narrow_resolution(base, Some(r)) == base);
    assert(narrow_resolution(base, None) == base);
}

/// Tests the AV1 flag of one candidate.
fn is_flagged_av1(c: &Candidate) -> (r: bool)
    ensures
        r == flagged_av1(*c),
{
    opt_str_eq(&c.av1, "1")
}

/// Picks one source from `candidates` as `select_spec` describes.
pub fn select_candidate<'a>(
    candidates: &'a [Candidate],
    audio: Option<&str>,
    resolution: Option<&str>,
) -> (r: Option<&'a Candidate>)
    ensures
        match r {
            Some(c) => select_spec(candidates@, pref_view(audio), pref_view(resolution)) == Some(
                *c,
            ),
            None => select_spec(candidates@, pref_view(audio), pref_view(resolution)) is None,
        },
{
    let ghost cs = candidates@;
    let n: usize = candidates.len();

    // Step 1: exclude AV1-flagged candidates.
    let mut pool: Vec<usize> = Vec::new();
    let mut j: usize = 0;
    while j < n
        invariant
            cs == candidates@,
            n == cs.len(),
            0 <= j <= n,
            idxs_below(pool@, j as int),
            picked(cs, pool@) == cs.subrange(0, j as int).filter(not_av1_pred()),
        decreases n - j,
    {
        let c = slice_index_get(candidates, j);
        let keep = !is_flagged_av1(c);
        proof {
            let prefix = cs.subrange(0, j as int);
            assert(cs.subrange(0, j + 1) =~= prefix.push(cs[j as int]));
            if keep {
                assert(picked(cs, pool@.push(j)) =~= picked(cs, pool@).push(cs[j as int]));
            }
        }
        if keep {
            pool.push(j);
        }
        j += 1;
    }
    proof {
        assert(cs.subrange(0, n as int) =~= cs);
    }

    // Step 2: narrow by audio preference when it matches anything.
    if let Some(a) = audio {
        let ghost before = picked(cs, pool@);
        let mut matched: Vec<usize> = Vec::new();
        let mut k: usize = 0;
        while k < pool.len()
            invariant
                cs == candidates@,
                idxs_below(pool@, cs.len() as int),
                0 <= k <= pool.len(),
                idxs_below(matched@, cs.len() as int),
                before == picked(cs, pool@),
                picked(cs, matched@) == before.subrange(0, k as int).filter(audio_pred(a@)),
            decreases pool.len() - k,
        {
            let i = pool[k];
            let hit = opt_str_eq(&slice_index_get(candidates, i).audio, a);
            proof {
                let prefix = before.subrange(0, k as int);
                assert(before.subrange(0, k + 1) =~= prefix.push(before[k as int]));
                assert(before[k as int] == cs[pool@[k as int] as int]);
                if hit {
                    assert(picked(cs, matched@.push(i)) =~= picked(cs, matched@).push(
                        cs[i as int],
                    ));
                }
            }
            if hit {
                matched.push(i);
            }
            k += 1;
        }
        proof {
            assert(before.subrange(0, before.len() as int) =~= before);
        }
        if matched.len() > 0 {
            pool = matched;
        }
        proof {
            assert(picked(cs, pool@) == narrow_audio(before, pref_view(audio)));
        }
    }

    // Step 3: the same narrowing for the resolution preference.
    if let Some(rp) = resolution {
        let ghost before = picked(cs, pool@);
        let mut matched: Vec<usize> = Vec::new();
        let mut k: usize = 0;
        while k < pool.len()
            invariant
                cs == candidates@,
                idxs_below(pool@, cs.len() as int),
                0 <= k <= pool.len(),
                idxs_below(matched@, cs.len() as int),
                before == picked(cs, pool@),
                picked(cs, matched@) == before.subrange(0, k as int).filter(resolution_pred(rp@)),
            decreases pool.len() - k,
        {
            let i = pool[k];
            let hit = opt_str_eq(&slice_index_get(candidates, i).resolution, rp);
            proof {
                let prefix = before.subrange(0, k as int);
                assert(before.subrange(0, k + 1) =~= prefix.push(before[k as int]));
                assert(before[k as int] == cs[pool@[k as int] as int]);
                if hit {
                    assert(picked(cs, matched@.push(i)) =~= picked(cs, matched@).push(
                        cs[i as int],
                    ));
                }
            }
            if hit {
                matched.push(i);
            }
            k += 1;
        }
        proof {
            assert(before.subrange(0, before.len() as int) =~= before);
        }
        if matched.len() > 0 {
            pool = matched;
        }
        proof {
            assert(picked(cs, pool@) == narrow_resolution(before, pref_view(resolution)));
        }
    }

    let ghost final_pool = picked(cs, pool@);
    proof {
        assert(final_pool == selection_pool(cs, pref_view(audio), pref_view(resolution)));
        assert(final_pool.subrange(0, pool@.len() as int) =~= final_pool);
    }

    // Tie-break: last candidate on the preferred host, else last overall.
    let mut k: usize = pool.len();
    while k > 0
        invariant
            cs == candidates@,
            idxs_below(pool@, cs.len() as int),
            0 <= k <= pool.len(),
            final_pool == picked(cs, pool@),
            final_pool == selection_pool(cs, pref_view(audio), pref_view(resolution)),
            final_pool.filter(preferred_pred()) == final_pool.subrange(0, k as int).filter(
                preferred_pred(),
            ),
        decreases k,
    {
        let i = pool[k - 1];
        let c = slice_index_get(candidates, i);
        let hit = contains_sub(c.src.as_str(), "kwik");
        proof {
            let prefix = final_pool.subrange(0, k - 1);
            assert(final_pool.subrange(0, k as int) =~= prefix.push(final_pool[k - 1]));
            assert(final_pool[k - 1] == cs[pool@[k - 1] as int]);
        }
        if hit {
            proof {
                assert(final_pool.filter(preferred_pred()).last() == cs[pool@[k - 1] as int]);
            }
            return Some(c);
        }
        k -= 1;
    }
    proof {
        assert(final_pool.subrange(0, 0) =~= Seq::<Candidate>::empty());
        Seq::<Candidate>::empty().lemma_all_neg_filter_empty(preferred_pred());
        assert(final_pool.filter(preferred_pred()).len() == 0);
    }
    if pool.len() > 0 {
        let i = pool[pool.len() - 1];
        let c = slice_index_get(candidates, i);
        proof {
            assert(final_pool.last() == cs[pool@[pool@.len() - 1] as int]);
        }
        Some(c)
    } else {
        None
    }
}

/// What the page parser yields for each button element of a play page: the
/// four source attributes, in document order — a function of the page text
/// alone.
pub uninterp spec fn button_sources_of(html: Seq<char>) -> Seq<
    (Option<Seq<char>>, Option<Seq<char>>, Option<Seq<char>>, Option<Seq<char>>),
>;

/// Relies on scraper (Html::parse_document, Selector::parse, select and
/// attr): parsing is deterministic in the page text, and each button
/// element's data-src, data-audio, data-resolution and data-av1 attributes
/// come back in document order.
#[verifier::external_body]
fn scrape_button_sources(html: &str) -> (r: Vec<
    (Option<String>, Option<String>, Option<String>, Option<String>),
>)
    ensures
        r.deep_view() == button_sources_of(html@),
{
    let doc = scraper::Html::parse_document(html);
    let sel = scraper::Selector::parse("button").unwrap();
    doc.select(&sel).map(|el| (
        el.value().attr("data-src").map(|v| v.to_string()),
        el.value().attr("data-audio").map(|v| v.to_string()),
        el.value().attr("data-resolution").map(|v| v.to_string()),
        el.value().attr("data-av1").map(|v| v.to_string()),
    )).collect()
}

/// A parsed button that names a source.
pub open spec fn has_src_pred() -> spec_fn(
    (Option<Seq<char>>, Option<Seq<char>>, Option<Seq<char>>, Option<Seq<char>>),
) -> bool {
    |t: (Option<Seq<char>>, Option<Seq<char>>, Option<Seq<char>>, Option<Seq<char>>)| t.0 is Some
}

/// The candidate `c` carries exactly the attribute views of `t`.
pub open spec fn candidate_of_button(
    c: Candidate,
    t: (Option<Seq<char>>, Option<Seq<char>>, Option<Seq<char>>, Option<Seq<char>>),
) -> bool {
    &&& t.0 == Some(c.src@)
    &&& c.audio.deep_view() == t.1
    &&& c.resolution.deep_view() == t.2
    &&& c.av1.deep_view() == t.3
}

/// Scrapes the playback candidates out of a fetched play page: one
/// candidate for each button element that names a source, in document
/// order, carrying that button's attributes.
pub fn extract_candidates(html: &str) -> (r: Vec<Candidate>)
    ensures
        ({
            let kept = button_sources_of(html@).filter(has_src_pred());
            &&& r@.len() == kept.len()
            &&& forall|i: int|
                0 <= i < r@.len() ==> candidate_of_button(#[trigger] r@[i], kept[i])
        }),
{
    let mut buttons = scrape_button_sources(html);
    let ghost bs = buttons.deep_view();
    let total: usize = buttons.len();
    proof {
        assert(bs.len() == buttons@.len());
        assert(bs.len() == total as int);
    }
    let mut out: Vec<Candidate> = Vec::new();
    let mut k: usize = 0;
    proof {
        assert(bs.subrange(0, 0) =~= Seq::<
            (Option<Seq<char>>, Option<Seq<char>>, Option<Seq<char>>, Option<Seq<char>>),
        >::empty());
        assert(buttons.deep_view() =~= bs.subrange(0, bs.len() as int));
        reveal(Seq::filter);
    }
    while buttons.len() > 0
        invariant
            0 <= k,
            k + buttons.len() == bs.len(),
            bs.len() <= usize::MAX,
            buttons.deep_view() == bs.subrange(k as int, bs.len() as int),
            out@.len() == bs.subrange(0, k as int).filter(has_src_pred()).len(),
            forall|i: int|
                0 <= i < out@.len() ==> candidate_of_button(
                    #[trigger] out@[i],
                    bs.subrange(0, k as int).filter(has_src_pred())[i],
                ),
        decreases buttons.len(),
    {
        let ghost prefix = bs.subrange(0, k as int);
        let ghost kept_prev = prefix.filter(has_src_pred());
        let ghost rest = buttons.deep_view();
        let t = buttons.remove(0);
        proof {
            assert(t.deep_view() == rest[0]);
            assert(rest[0] == bs[k as int]);
            assert(bs.subrange(0, k + 1) =~= prefix.push(bs[k as int]));
            assert(buttons.deep_view() =~= bs.subrange(k + 1, bs.len() as int)) by {
                assert forall|i: int| 0 <= i < buttons.deep_view().len() implies #[trigger]
                buttons.deep_view()[i] == bs[k + 1 + i] by {
                    assert(buttons.deep_view()[i] == buttons@[i].deep_view());
                    assert(rest[i + 1] == bs[k + 1 + i]);
                }
            }
        }
        let (src, audio, resolution, av1) = t;
        if let Some(src_val) = src {
            out.push(Candidate { src: src_val, audio, resolution, av1 });
            proof {
                let kept = bs.subrange(0, k + 1).filter(has_src_pred());
                assert(kept == kept_prev.push(bs[k as int]));
                assert forall|i: int| 0 <= i < out@.len() implies candidate_of_button(
                    #[trigger] out@[i],
                    kept[i],
                ) by {
                    if i < out@.len() - 1 {
                        assert(kept[i] == kept_prev[i]);
                    } else {
                        assert(kept[i] == bs[k as int]);
                    }
                }
            }
        } else {
            proof {
                assert(bs.subrange(0, k + 1).filter(has_src_pred()) == kept_prev);
            }
        }
        k += 1;
    }
    proof {
        assert(bs.subrange(0, bs.len() as int) =~= bs);
        assert(bs.subrange(0, k as int) =~= bs);
    }
    out
}

} // verus!
