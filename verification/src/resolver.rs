//! Recovering the manifest location from a play page: find the eval-packed
//! inline script, rewrite it so that it prints instead of acting, run it in
//! an isolated script engine, and scan the captured output for the quoted
//! manifest reference. Everything except the engine call is verified; the
//! engine call promises nothing, and the scan of whatever it returned is
//! exact.

use vstd::prelude::*;
use crate::errors::DownloadError;
use crate::text::{match_at, find_from, find_sub, lemma_find_from_properties};
use crate::naming::ends_with;

verus! {

/// Replacement of every non-overlapping occurrence of `pat` by `rep`,
/// leftmost first, resuming after the replacement.
pub open spec fn replace_spec(s: Seq<char>, pat: Seq<char>, rep: Seq<char>) -> Seq<char>
    decreases s.len(),
{
    let i = find_from(s, pat, 0);
    if 0 <= i && i + pat.len() <= s.len() && pat.len() > 0 {
        s.subrange(0, i) + rep + replace_spec(
            s.subrange(i + pat.len(), s.len() as int),
            pat,
            rep,
        )
    } else {
        s
    }
}

/// Replaces every occurrence of `pat` by `rep`, as `replace_spec` describes.
pub fn replace_all(s: &str, pat: &str, rep: &str) -> (r: String)
    requires
        pat@.len() > 0,
    ensures
        r@ == replace_spec(s@, pat@, rep@),
    decreases s@.len(),
{
    let n: usize = s.unicode_len();
    let m: usize = pat.unicode_len();
    match find_sub(s, pat, 0) {
        Some(i) => {
            proof {
                lemma_find_from_properties(s@, pat@, 0);
                assert(match_at(s@, pat@, i as int));
            }
            let mut out = s.substring_char(0, i).to_owned();
            out.append(rep);
            let tail = replace_all(s.substring_char(i + m, n), pat, rep);
            out.append(tail.as_str());
            proof {
                assert(out@ =~= s@.subrange(0, i as int) + rep@ + replace_spec(
                    s@.subrange(i + m, n as int),
                    pat@,
                    rep@,
                ));
            }
            out
        },
        None => s.to_owned(),
    }
}

/// The rewritten script: references to the real document are redirected to a
/// harmless stand-in, element lookups are renamed away, and the final packed
/// evaluation prints its argument instead of executing it.
pub open spec fn rewritten_script(js: Seq<char>) -> Seq<char> {
    replace_spec(
        replace_spec(replace_spec(js, "document"@, "process"@), "querySelector"@, "exit"@),
        "eval("@,
        "console.log("@,
    )
}

/// Rewrites the packed script defensively, as `rewritten_script` describes.
pub fn rewrite_script(js: &str) -> (r: String)
    ensures
        r@ == rewritten_script(js@),
{
    proof {
        reveal_strlit("document");
        reveal_strlit("querySelector");
        reveal_strlit("eval(");
    }
    let step1 = replace_all(js, "document", "process");
    let step2 = replace_all(step1.as_str(), "querySelector", "exit");
    replace_all(step2.as_str(), "eval(", "console.log(")
}

/// The inline eval-packed script of a page: the text between the first
/// script-open tag immediately followed by an eval call and the first
/// script-close tag after it.
pub open spec fn packed_script_of(h: Seq<char>) -> Option<Seq<char>> {
    let i = find_from(h, "<script>eval("@, 0);
    if i < 0 {
        None
    } else {
        let j = find_from(h, "</script>"@, i + "<script>eval("@.len());
        if j < 0 {
            None
        } else {
            Some(h.subrange(i + "<script>"@.len(), j))
        }
    }
}

/// Locates the eval-packed inline script, as `packed_script_of` describes.
pub fn find_eval_script(html: &str) -> (r: Option<String>)
    ensures
        match r {
            Some(s) => packed_script_of(html@) == Some(s@),
            None => packed_script_of(html@) is None,
        },
{
    proof {
        reveal_strlit("<script>eval(");
        reveal_strlit("</script>");
        reveal_strlit("<script>");
    }
    let n: usize = html.unicode_len();
    let i = match find_sub(html, "<script>eval(", 0) {
        Some(i) => i,
        None => {
            return None;
        },
    };
    proof {
        lemma_find_from_properties(html@, "<script>eval("@, 0);
        assert(match_at(html@, "<script>eval("@, i as int));
    }
    let j = match find_sub(html, "</script>", i + 13) {
        Some(j) => j,
        None => {
            return None;
        },
    };
    proof {
        lemma_find_from_properties(html@, "</script>"@, i + 13);
        assert(match_at(html@, "</script>"@, j as int));
    }
    Some(html.substring_char(i + 8, j).to_owned())
}

/// The escape of one character inside the generated script literal: quote,
/// backslash, newline, carriage return and tab are escaped; everything else
/// passes through, which a script string literal accepts.
pub open spec fn escaped_char(c: char) -> Seq<char> {
    if c == '"' {
        seq!['\\', '"']
    } else if c == '\\' {
        seq!['\\', '\\']
    } else if c == '\n' {
        seq!['\\', 'n']
    } else if c == '\r' {
        seq!['\\', 'r']
    } else if c == '\t' {
        seq!['\\', 't']
    } else {
        seq![c]
    }
}

/// The body of the generated string literal.
pub open spec fn escaped_body(s: Seq<char>) -> Seq<char>
    decreases s.len(),
{
    if s.len() == 0 {
        Seq::empty()
    } else {
        escaped_char(s[0]) + escaped_body(s.drop_first())
    }
}

/// The quoted script literal embedding `s`.
pub open spec fn script_literal(s: Seq<char>) -> Seq<char> {
    seq!['"'] + escaped_body(s) + seq!['"']
}

/// Escaping distributes over extension by one character.
proof fn lemma_escaped_body_push(a: Seq<char>, c: char)
    ensures
        escaped_body(a.push(c)) == escaped_body(a) + escaped_char(c),
    decreases a.len(),
{
    if a.len() == 0 {
        assert(a.push(c)[0] == c);
        assert(a.push(c).drop_first() =~= Seq::<char>::empty());
        assert(escaped_body(Seq::<char>::empty()) =~= Seq::<char>::empty());
        assert(escaped_body(a.push(c)) =~= escaped_body(a) + escaped_char(c));
    } else {
        assert(a.push(c)[0] == a[0]);
        assert(a.push(c).drop_first() =~= a.drop_first().push(c));
        lemma_escaped_body_push(a.drop_first(), c);
        assert(escaped_body(a.push(c)) =~= escaped_body(a) + escaped_char(c));
    }
}

/// Builds the quoted literal, as `script_literal` describes.
#[verifier::loop_isolation(false)]
pub fn make_script_literal(s: &str) -> (r: String)
    ensures
        r@ == script_literal(s@),
{
    let n: usize = s.unicode_len();
    let mut out = String::from_str("\"");
    proof {
        reveal_strlit("\"");
        assert(s@.subrange(0, 0) =~= Seq::<char>::empty());
        assert(out@ =~= seq!['"'] + escaped_body(s@.subrange(0, 0)));
    }
    let mut i: usize = 0;
    while i < n
        invariant
            0 <= i <= n,
            out@ == seq!['"'] + escaped_body(s@.subrange(0, i as int)),
        decreases n - i,
    {
        let c = s.get_char(i);
        let ghost out_prev = out@;
        if c == '"' {
            proof {
                reveal_strlit("\\\"");
            }
            out.append("\\\"");
        } else if c == '\\' {
            proof {
                reveal_strlit("\\\\");
            }
            out.append("\\\\");
        } else if c == '\n' {
            proof {
                reveal_strlit("\\n");
            }
            out.append("\\n");
        } else if c == '\r' {
            proof {
                reveal_strlit("\\r");
            }
            out.append("\\r");
        } else if c == '\t' {
            proof {
                reveal_strlit("\\t");
            }
            out.append("\\t");
        } else {
            let piece = s.substring_char(i, i + 1);
            proof {
                assert(piece@ =~= seq![s@[i as int]]);
            }
            out.append(piece);
        }
        proof {
            assert(out@ =~= out_prev + escaped_char(s@[i as int]));
            assert(s@.subrange(0, i + 1) =~= s@.subrange(0, i as int).push(s@[i as int]));
            lemma_escaped_body_push(s@.subrange(0, i as int), s@[i as int]);
            assert(out@ =~= seq!['"'] + escaped_body(s@.subrange(0, i + 1)));
        }
        i += 1;
    }
    proof {
        reveal_strlit("\"");
        assert(s@.subrange(0, n as int) =~= s@);
    }
    out.append("\"");
    proof {
        assert(out@ =~= script_literal(s@));
    }
    out
}

/// A quote character that ends the captured reference.
pub open spec fn quote_char(c: char) -> bool {
    c == '\'' || c == '"'
}

/// The lazy scan for the captured reference: from capture start `q`, the
/// first position `j` after `q` where the manifest suffix begins, with no
/// quote in between; the capture runs from `q` through the suffix.
pub open spec fn m3u8_capture_scan(s: Seq<char>, q: int, j: int) -> Option<Seq<char>>
    decreases s.len() - j,
{
    if j < q + 1 || j + 5 > s.len() {
        None
    } else if match_at(s, ".m3u8"@, j) {
        Some(s.subrange(q, j + 5))
    } else if quote_char(s[j]) {
        None
    } else {
        m3u8_capture_scan(s, q, j + 1)
    }
}

/// The manifest reference anchored at position `p`: the marker, a quote, at
/// least one unquoted character, and the suffix scan.
pub open spec fn m3u8_at(s: Seq<char>, p: int) -> Option<Seq<char>> {
    if match_at(s, "source="@, p) && p + 8 < s.len() && quote_char(s[p + 7]) && !quote_char(
        s[p + 8],
    ) {
        m3u8_capture_scan(s, p + 8, p + 9)
    } else {
        None
    }
}

/// The first manifest reference at or after `p`.
pub open spec fn first_m3u8_from(s: Seq<char>, p: int) -> Option<Seq<char>>
    decreases s.len() - p + 1,
{
    if p < 0 || p > s.len() {
        None
    } else {
        match m3u8_at(s, p) {
            Some(u) => Some(u),
            None => first_m3u8_from(s, p + 1),
        }
    }
}

/// The manifest reference of the captured output, if any: first match wins.
pub open spec fn manifest_url_of(out: Seq<char>) -> Option<Seq<char>> {
    first_m3u8_from(out, 0)
}

/// Without a marker match at or after `p`, there is no reference there.
proof fn lemma_first_m3u8_none(s: Seq<char>, p: int)
    requires
        0 <= p,
        forall|j: int| j >= p ==> !match_at(s, "source="@, j),
    ensures
        first_m3u8_from(s, p) is None,
    decreases s.len() - p + 1,
{
    if p <= s.len() {
        assert(m3u8_at(s, p) is None);
        lemma_first_m3u8_none(s, p + 1);
    }
}

/// Positions without a marker match can be skipped.
proof fn lemma_first_m3u8_skip(s: Seq<char>, p: int, i: int)
    requires
        0 <= p <= i <= s.len(),
        forall|j: int| p <= j < i ==> !match_at(s, "source="@, j),
    ensures
        first_m3u8_from(s, p) == first_m3u8_from(s, i),
    decreases i - p,
{
    if p < i {
        assert(m3u8_at(s, p) is None);
        lemma_first_m3u8_skip(s, p + 1, i);
    }
}

/// Whatever the scan captures ends with the manifest suffix.
proof fn lemma_capture_suffix(s: Seq<char>, q: int, j: int)
    requires
        0 <= q,
    ensures
        m3u8_capture_scan(s, q, j) matches Some(u) ==> ends_with(u, ".m3u8"@),
    decreases s.len() - j,
{
    reveal_strlit(".m3u8");
    if j < q + 1 || j + 5 > s.len() {
    } else if match_at(s, ".m3u8"@, j) {
        let u = s.subrange(q, j + 5);
        assert(u.subrange(u.len() - 5, u.len() as int) =~= s.subrange(j, j + 5));
        assert(match_at(u, ".m3u8"@, u.len() - 5));
    } else if quote_char(s[j]) {
    } else {
        lemma_capture_suffix(s, q, j + 1);
    }
}

/// Law: whatever the output scan returns names a manifest: it ends with the
/// manifest suffix.
pub proof fn lemma_manifest_url_suffix(s: Seq<char>, p: int)
    requires
        0 <= p,
    ensures
        first_m3u8_from(s, p) matches Some(u) ==> ends_with(u, ".m3u8"@),
    decreases s.len() - p + 1,
{
    if 0 <= p <= s.len() {
        if m3u8_at(s, p) is Some {
            lemma_capture_suffix(s, p + 8, p + 9);
        } else {
            lemma_manifest_url_suffix(s, p + 1);
        }
    }
}

/// Tests one character for being a quote.
fn is_quote(c: char) -> (r: bool)
    ensures
        r == quote_char(c),
{
    c == '\'' || c == '"'
}

/// Scans the captured output for the first quoted manifest reference, as
/// `manifest_url_of` describes.
#[verifier::loop_isolation(false)]
pub fn extract_m3u8_url(output: &str) -> (r: Option<String>)
    ensures
        match r {
            Some(u) => manifest_url_of(output@) == Some(u@),
            None => manifest_url_of(output@) is None,
        },
{
    proof {
        reveal_strlit("source=");
        reveal_strlit(".m3u8");
    }
    let n: usize = output.unicode_len();
    let mut p: usize = 0;
    while p <= n
        invariant
            0 <= p <= n + 1,
            first_m3u8_from(output@, 0) == first_m3u8_from(output@, p as int),
        decreases n + 1 - p,
    {
        let i = match find_sub(output, "source=", p) {
            Some(i) => i,
            None => {
                proof {
                    lemma_find_from_properties(output@, "source="@, p as int);
                    lemma_first_m3u8_none(output@, p as int);
                }
                return None;
            },
        };
        proof {
            lemma_find_from_properties(output@, "source="@, p as int);
            assert(match_at(output@, "source="@, i as int));
            lemma_first_m3u8_skip(output@, p as int, i as int);
        }
        let anchored = n - i > 8 && is_quote(output.get_char(i + 7)) && !is_quote(
            output.get_char(i + 8),
        );
        if anchored {
            let q = i + 8;
            let mut j: usize = i + 9;
            while j < n && n - j >= 5
                invariant
                    q + 1 <= j,
                    m3u8_capture_scan(output@, q as int, (q + 1) as int) == m3u8_capture_scan(
                        output@,
                        q as int,
                        j as int,
                    ),
                decreases n - j,
            {
                if crate::text::is_match_at(output, ".m3u8", j) {
                    let u = output.substring_char(q, j + 5).to_owned();
                    proof {
                        assert(m3u8_capture_scan(output@, q as int, j as int) == Some(u@));
                        assert(m3u8_at(output@, i as int) == Some(u@));
                        assert(first_m3u8_from(output@, i as int) == Some(u@));
                    }
                    return Some(u);
                }
                if is_quote(output.get_char(j)) {
                    break ;
                }
                j += 1;
            }
            proof {
                assert(m3u8_capture_scan(output@, q as int, j as int) is None);
                assert(m3u8_at(output@, i as int) is None);
                assert(first_m3u8_from(output@, i as int) == first_m3u8_from(
                    output@,
                    i + 1,
                ));
            }
        } else {
            proof {
                assert(m3u8_at(output@, i as int) is None);
                assert(first_m3u8_from(output@, i as int) == first_m3u8_from(
                    output@,
                    i + 1,
                ));
            }
        }
        p = i + 1;
    }
    proof {
        lemma_first_m3u8_none(output@, p as int);
    }
    None
}

/// The fixed text ahead of the embedded script literal: an isolated scope
/// that captures printed output, stands in for the document, and provides
/// the one decoding primitive the packed code relies on.
pub open spec fn sandbox_prefix() -> Seq<char> {
    "(function() {
  let output = \"\";
  const console = {
    log: (...args) => {
      output += args.map(value => String(value)).join(\" \") + \"\\n\";
    }
  };
  globalThis.console = console;
  globalThis.process = {};
  const chars = \"ABCDEFGHIJKLMNOPQRSTUVWXYZabcdefghijklmnopqrstuvwxyz0123456789+/=\";
  globalThis.atob = function(input) {
    const str = String(input).replace(/=+$/, \"\");
    if (str.length % 4 === 1) {
      throw new Error(\"Invalid base64\");
    }
    let bc = 0, bs = 0, buffer, idx = 0, result = \"\";
    for (; (buffer = str.charAt(idx++)); ~buffer && (bs = bc % 4 ? bs * 64 + buffer : buffer, bc++ % 4) ? result += String.fromCharCode(255 & bs >> (-2 * bc & 6)) : 0) {
      buffer = chars.indexOf(buffer);
    }
    return result;
  };
  try {
    eval("@
}

/// The fixed text after the embedded script literal.
pub open spec fn sandbox_suffix() -> Seq<char> {
    ");
  } catch (err) {
    output += String(err) + \"\\n\";
  }
  return output;
})()"@
}

/// The full sandboxed source for one rewritten script.
pub open spec fn sandbox_source_spec(js: Seq<char>) -> Seq<char> {
    sandbox_prefix() + script_literal(js) + sandbox_suffix()
}

/// Builds the sandboxed source around a rewritten script, as
/// `sandbox_source_spec` describes.
pub fn build_sandbox_source(js: &str) -> (r: String)
    ensures
        r@ == sandbox_source_spec(js@),
{
    let mut out = String::from_str(
        "(function() {
  let output = \"\";
  const console = {
    log: (...args) => {
      output += args.map(value => String(value)).join(\" \") + \"\\n\";
    }
  };
  globalThis.console = console;
  globalThis.process = {};
  const chars = \"ABCDEFGHIJKLMNOPQRSTUVWXYZabcdefghijklmnopqrstuvwxyz0123456789+/=\";
  globalThis.atob = function(input) {
    const str = String(input).replace(/=+$/, \"\");
    if (str.length % 4 === 1) {
      throw new Error(\"Invalid base64\");
    }
    let bc = 0, bs = 0, buffer, idx = 0, result = \"\";
    for (; (buffer = str.charAt(idx++)); ~buffer && (bs = bc % 4 ? bs * 64 + buffer : buffer, bc++ % 4) ? result += String.fromCharCode(255 & bs >> (-2 * bc & 6)) : 0) {
      buffer = chars.indexOf(buffer);
    }
    return result;
  };
  try {
    eval(",
    );
    let lit = make_script_literal(js);
    out.append(lit.as_str());
    out.append(
        ");
  } catch (err) {
    output += String(err) + \"\\n\";
  }
  return output;
})()",
    );
    out
}

/// Relies on quick_js::Context (new and eval_as::<String>): evaluates the
/// source in an isolated script engine with no network or filesystem
/// capability and hands back the final expression as text; nothing is
/// promised of the text.
#[verifier::external_body]
fn eval_in_sandbox(src: &str) -> (r: Option<String>)
{
    let ctx = match quick_js::Context::new() {
        Ok(c) => c,
        Err(_) => return None,
    };
    ctx.eval_as::<String>(src).ok()
}

/// Resolves the manifest reference from a fetched play page: locates the
/// packed script, rewrites it, runs it in the sandbox, and scans whatever
/// came back. The missing-script failure is exact; the scan of the engine's
/// output is exact in that output; and a returned reference always carries
/// the manifest suffix.
pub fn resolve_from_html(html: &str) -> (r: Result<String, DownloadError>)
    ensures
        packed_script_of(html@) is None <==> r == Result::<String, DownloadError>::Err(
            DownloadError::ManifestScriptNotFound,
        ),
        r matches Err(e) ==> e == DownloadError::ManifestScriptNotFound || e
            == DownloadError::ManifestUrlNotFound,
        r matches Ok(u) ==> ends_with(u@, ".m3u8"@),
{
    let script = match find_eval_script(html) {
        Some(s) => s,
        None => {
            return Err(DownloadError::ManifestScriptNotFound);
        },
    };
    let rewritten = rewrite_script(script.as_str());
    let source = build_sandbox_source(rewritten.as_str());
    let captured = match eval_in_sandbox(source.as_str()) {
        Some(out) => out,
        None => {
            return Err(DownloadError::ManifestUrlNotFound);
        },
    };
    match extract_m3u8_url(captured.as_str()) {
        Some(u) => {
            proof {
                lemma_manifest_url_suffix(captured@, 0);
            }
            Ok(u)
        },
        None => Err(DownloadError::ManifestUrlNotFound),
    }
}

} // verus!
