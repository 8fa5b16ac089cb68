//! Parsing a segmented-media manifest: splitting it into lines, keeping the
//! absolute-URL lines as the ordered segment list, and finding the optional
//! encryption-key locator.

use vstd::prelude::*;
use vstd::seq_lib::group_filter_ensures;
use crate::text::{match_at, find_from, find_sub, starts_with_str, strip_cr_exec, strip_cr};
use crate::errors::DownloadError;

verus! {

broadcast use {group_filter_ensures, Seq::lemma_filter_push};

/// The newline separator.
pub open spec fn nl() -> Seq<char> {
    seq!['\n']
}

/// The lines of `s`: split at newline, each line stripped of a trailing
/// carriage return, with no empty line after a final newline.
pub open spec fn lines_of(s: Seq<char>) -> Seq<Seq<char>>
    decreases s.len(),
{
    if s.len() == 0 {
        Seq::empty()
    } else {
        let i = find_from(s, nl(), 0);
        if 0 <= i && i + 1 <= s.len() {
            seq![strip_cr(s.subrange(0, i))] + lines_of(s.subrange(i + 1, s.len() as int))
        } else {
            seq![strip_cr(s)]
        }
    }
}

/// A line that names a segment location: it begins with `http`.
pub open spec fn is_segment_line(l: Seq<char>) -> bool {
    match_at(l, "http"@, 0)
}

/// The segment-line predicate as a shared value.
pub open spec fn segment_line_pred() -> spec_fn(Seq<char>) -> bool {
    |l: Seq<char>| is_segment_line(l)
}

/// The ordered segment locations of a manifest.
pub open spec fn segment_urls_of(m: Seq<char>) -> Seq<Seq<char>> {
    lines_of(m).filter(segment_line_pred())
}

/// The key locator carried by one line, if the line declares one: after the
/// key marker, the text between `URI="` and the next quote, nonempty.
pub open spec fn key_uri_in_line(l: Seq<char>) -> Option<Seq<char>> {
    let k = find_from(l, "#EXT-X-KEY:"@, 0);
    if k < 0 {
        None
    } else {
        let i = find_from(l, "URI=\""@, k);
        if i < 0 {
            None
        } else {
            let j = find_from(l, "\""@, i + 5);
            if j <= i + 5 {
                None
            } else {
                Some(l.subrange(i + 5, j))
            }
        }
    }
}

/// The first key locator among `lines`, if any.
pub open spec fn first_key_uri(lines: Seq<Seq<char>>) -> Option<Seq<char>>
    decreases lines.len(),
{
    if lines.len() == 0 {
        None
    } else {
        match key_uri_in_line(lines[0]) {
            Some(u) => Some(u),
            None => first_key_uri(lines.drop_first()),
        }
    }
}

/// The key locator of a manifest, if it declares one.
pub open spec fn key_uri_of(m: Seq<char>) -> Option<Seq<char>> {
    first_key_uri(lines_of(m))
}

/// The ordered plan for one episode: segment locations in playback order and
/// the optional key locator.
pub struct SegmentPlan {
    pub urls: Vec<String>,
    pub key_uri: Option<String>,
}

impl SegmentPlan {
    /// The plan is what parsing the given manifest yields.
    pub open spec fn matches_manifest(&self, m: Seq<char>) -> bool {
        &&& self.urls.deep_view() == segment_urls_of(m)
        &&& match self.key_uri {
            Some(u) => key_uri_of(m) == Some(u@),
            None => key_uri_of(m) is None,
        }
    }
}

/// Splits a manifest into its lines, as `lines_of` describes.
pub fn split_lines(s: &str) -> (r: Vec<String>)
    ensures
        r.deep_view() == lines_of(s@),
{
    let mut out: Vec<String> = Vec::new();
    let mut rest: &str = s;
    proof {
        reveal_strlit("\n");
        assert("\n"@ =~= nl());
        assert(out.deep_view() + lines_of(rest@) =~= lines_of(s@));
    }
    while rest.unicode_len() > 0
        invariant
            out.deep_view() + lines_of(rest@) == lines_of(s@),
        decreases rest@.len(),
    {
        let m = rest.unicode_len();
        let ghost prev = rest@;
        let ghost out_prev = out.deep_view();
        proof {
            reveal_strlit("\n");
            assert("\n"@ =~= nl());
        }
        match find_sub(rest, "\n", 0) {
            Some(i) => {
                proof {
                    crate::text::lemma_find_from_properties(prev, "\n"@, 0);
                    assert(crate::text::match_at(prev, nl(), i as int));
                }
                let line = strip_cr_exec(rest.substring_char(0, i));
                out.push(line.to_owned());
                rest = rest.substring_char(i + 1, m);
                proof {
                    assert(out.deep_view() =~= out_prev.push(strip_cr(prev.subrange(0, i as int))));
                    assert(lines_of(prev) == seq![strip_cr(prev.subrange(0, i as int))] + lines_of(
                        rest@,
                    ));
                    assert(out.deep_view() + lines_of(rest@) =~= out_prev + lines_of(prev));
                }
            },
            None => {
                let line = strip_cr_exec(rest);
                out.push(line.to_owned());
                rest = rest.substring_char(m, m);
                proof {
                    assert(rest@ =~= Seq::<char>::empty());
                    assert(out.deep_view() =~= out_prev.push(strip_cr(prev)));
                    assert(lines_of(prev) == seq![strip_cr(prev)]);
                    assert(out.deep_view() + lines_of(rest@) =~= out_prev + lines_of(prev));
                }
            },
        }
    }
    proof {
        assert(lines_of(rest@) =~= Seq::<Seq<char>>::empty());
        assert(out.deep_view() =~= lines_of(s@));
    }
    out
}

/// Keeps the segment lines of a manifest, in discovery order.
pub fn parse_segment_urls(manifest: &str) -> (r: Vec<String>)
    ensures
        r.deep_view() == segment_urls_of(manifest@),
{
    let lines = split_lines(manifest);
    let ghost all = lines.deep_view();
    let mut out: Vec<String> = Vec::new();
    let mut k: usize = 0;
    while k < lines.len()
        invariant
            all == lines.deep_view(),
            all == lines_of(manifest@),
            0 <= k <= lines.len(),
            all.len() == lines.len(),
            out.deep_view() == all.subrange(0, k as int).filter(segment_line_pred()),
        decreases lines.len() - k,
    {
        let line = &lines[k];
        let hit = starts_with_str(line.as_str(), "http");
        let ghost out_prev = out.deep_view();
        proof {
            let prefix = all.subrange(0, k as int);
            assert(all.subrange(0, k + 1) =~= prefix.push(all[k as int]));
            assert(all[k as int] == line@);
        }
        if hit {
            out.push(line.clone());
            proof {
                assert(out.deep_view() =~= out_prev.push(line@));
            }
        }
        k += 1;
    }
    proof {
        assert(all.subrange(0, all.len() as int) =~= all);
    }
    out
}

/// Finds the key locator of a manifest, if any line declares one.
pub fn extract_key_uri(manifest: &str) -> (r: Option<String>)
    ensures
        match r {
            Some(u) => key_uri_of(manifest@) == Some(u@),
            None => key_uri_of(manifest@) is None,
        },
{
    let lines = split_lines(manifest);
    let ghost all = lines.deep_view();
    proof {
        assert(all.subrange(0, all.len() as int) =~= all);
    }
    let mut k: usize = 0;
    while k < lines.len()
        invariant
            all == lines.deep_view(),
            all == lines_of(manifest@),
            0 <= k <= lines.len(),
            all.len() == lines.len(),
            first_key_uri(all) == first_key_uri(all.subrange(k as int, all.len() as int)),
        decreases lines.len() - k,
    {
        let line = &lines[k];
        proof {
            assert(all.subrange(k as int, all.len() as int).drop_first() =~= all.subrange(
                k + 1,
                all.len() as int,
            ));
            assert(all.subrange(k as int, all.len() as int)[0] == line@);
        }
        let found = key_uri_in_line_exec(line.as_str());
        if let Some(u) = found {
            return Some(u);
        }
        k += 1;
    }
    proof {
        assert(all.subrange(all.len() as int, all.len() as int) =~= Seq::<Seq<char>>::empty());
    }
    None
}

/// Scans one line for a key locator, as `key_uri_in_line` describes.
fn key_uri_in_line_exec(l: &str) -> (r: Option<String>)
    ensures
        match r {
            Some(u) => key_uri_in_line(l@) == Some(u@),
            None => key_uri_in_line(l@) is None,
        },
{
    let n: usize = l.unicode_len();
    let k = match find_sub(l, "#EXT-X-KEY:", 0) {
        Some(k) => k,
        None => {
            return None;
        },
    };
    let i = match find_sub(l, "URI=\"", k) {
        Some(i) => i,
        None => {
            return None;
        },
    };
    proof {
        reveal_strlit("URI=\"");
        crate::text::lemma_find_from_properties(l@, "URI=\""@, k as int);
        assert(crate::text::match_at(l@, "URI=\""@, i as int));
    }
    let j = match find_sub(l, "\"", i + 5) {
        Some(j) => j,
        None => {
            return None;
        },
    };
    if j <= i + 5 {
        return None;
    }
    proof {
        crate::text::lemma_find_from_properties(l@, "\""@, i + 5);
        assert(crate::text::match_at(l@, "\""@, j as int));
    }
    Some(l.substring_char(i + 5, j).to_owned())
}

/// Builds the ordered plan for a manifest, or the empty-plan error when no
/// line names a segment: an empty plan is rejected before any segment fetch
/// is attempted.
pub fn plan_from_manifest(manifest: &str) -> (r: Result<SegmentPlan, DownloadError>)
    ensures
        r is Ok <==> segment_urls_of(manifest@).len() > 0,
        r matches Ok(p) ==> p.matches_manifest(manifest@),
        r matches Err(e) ==> e == DownloadError::EmptySegmentPlan,
{
    let urls = parse_segment_urls(manifest);
    if urls.len() == 0 {
        proof {
            assert(segment_urls_of(manifest@).len() == urls.deep_view().len());
        }
        return Err(DownloadError::EmptySegmentPlan);
    }
    let key_uri = extract_key_uri(manifest);
    Ok(SegmentPlan { urls, key_uri })
}

} // verus!
