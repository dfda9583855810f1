use vstd::prelude::*;
use crate::model::LinkTarget;
use crate::navigation::ascii_lower;
use crate::text::{is_blank, trim, trim_chars, string_from_chars};
use crate::unicode::chars_of;

verus! {

/// The extension of the file that `path` names, as `Path::extension` reads it
/// (the part after the last `.` of the file name, when that is not its first
/// character), where it is valid UTF-8.  Which characters separate path
/// components is fixed by the build target (`\` separates on Windows only), so
/// the name is fixed within one build.
pub uninterp spec fn path_extension_of(path: Seq<char>) -> Option<Seq<char>>;

/// The stem of the file that `path` names, as `Path::file_stem` reads it, where it
/// is valid UTF-8.  Like the extension, it depends on the build target's path
/// separators and is fixed within one build.
pub uninterp spec fn path_stem_of(path: Seq<char>) -> Option<Seq<char>>;

/// Calls `Path::extension` on `path`; the result is the named extension of `path`.
#[verifier::external_body]
fn path_extension(path: &str) -> (r: Option<String>)
    ensures
        match (r, path_extension_of(path@)) {
            (Some(e), Some(x)) => e@ == x,
            (None, None) => true,
            _ => false,
        },
{
    std::path::Path::new(path).extension().and_then(|e| e.to_str()).map(|e| e.to_owned())
}

/// Calls `Path::file_stem` on `path`; the result is the named stem of `path`.
#[verifier::external_body]
fn path_stem(path: &str) -> (r: Option<String>)
    ensures
        match (r, path_stem_of(path@)) {
            (Some(e), Some(x)) => e@ == x,
            (None, None) => true,
            _ => false,
        },
{
    std::path::Path::new(path).file_stem().and_then(|e| e.to_str()).map(|e| e.to_owned())
}

/// Whether two strings are equal when ASCII letters are compared without case,
/// as `str::eq_ignore_ascii_case` decides.
pub open spec fn eq_ignore_ascii_case(a: Seq<char>, b: Seq<char>) -> bool {
    a.len() == b.len() && forall|i: int| 0 <= i < a.len() ==> ascii_lower(#[trigger] a[i]) == ascii_lower(b[i])
}

pub fn eq_ignore_ascii_case_exec(a: &Vec<char>, b: &Vec<char>) -> (r: bool)
    ensures
        r == eq_ignore_ascii_case(a@, b@),
{
    if a.len() != b.len() {
        return false;
    }
    let mut i: usize = 0;
    while i < a.len()
        invariant
            i <= a@.len() == b@.len(),
            forall|j: int| 0 <= j < i ==> ascii_lower(#[trigger] a@[j]) == ascii_lower(b@[j]),
        decreases a@.len() - i,
    {
        if crate::navigation::to_ascii_lower(a[i]) != crate::navigation::to_ascii_lower(b[i]) {
            return false;
        }
        i = i + 1;
    }
    true
}

/// Whether `path` names a PDF file: its extension is `pdf` in any letter case.
pub open spec fn spec_is_pdf(path: Seq<char>) -> bool {
    match path_extension_of(path) {
        Some(e) => eq_ignore_ascii_case(e, "pdf"@),
        None => false,
    }
}

/// Whether a file extension (as `Path::extension` gives it) is `pdf` in any letter case.
pub fn is_pdf_extension(ext: Option<String>) -> (r: bool)
    ensures
        r == match ext {
            Some(e) => eq_ignore_ascii_case(e@, "pdf"@),
            None => false,
        },
{
    match ext {
        Some(e) => {
            let e = chars_of(e.as_str());
            let pdf = chars_of("pdf");
            eq_ignore_ascii_case_exec(&e, &pdf)
        },
        None => false,
    }
}

pub fn is_pdf(path: &str) -> (r: bool)
    ensures
        r == spec_is_pdf(path@),
{
    is_pdf_extension(path_extension(path))
}

/// Paths of documents the operating system asked the reader to open, oldest first.
pub struct OpenQueue<P> {
    pub paths: Vec<P>,
}

impl<P> OpenQueue<P> {
    pub fn new() -> (r: Self)
        ensures
            r.paths@.len() == 0,
    {
        OpenQueue { paths: Vec::new() }
    }
}

/// Remembers a request to open `path`.
pub fn enqueue_open<P>(queue: &mut OpenQueue<P>, path: P)
    ensures
        final(queue).paths@ == old(queue).paths@.push(path),
{
    queue.paths.push(path);
}

/// Hands out all pending open requests, oldest first, and forgets them.
pub fn take_open_paths<P>(queue: &mut OpenQueue<P>) -> (r: Vec<P>)
    ensures
        r@ == old(queue).paths@,
        final(queue).paths@.len() == 0,
{
    let mut taken: Vec<P> = Vec::new();
    std::mem::swap(&mut taken, &mut queue.paths);
    taken
}

fn chars_equal(a: &Vec<char>, b: &Vec<char>) -> (r: bool)
    ensures
        r == (a@ == b@),
{
    if a.len() != b.len() {
        return false;
    }
    let mut i: usize = 0;
    while i < a.len()
        invariant
            i <= a@.len() == b@.len(),
            forall|j: int| 0 <= j < i ==> a@[j] == b@[j],
        decreases a@.len() - i,
    {
        if a[i] != b[i] {
            return false;
        }
        i = i + 1;
    }
    assert(a@ =~= b@);
    true
}

/// Whether `s` is present and holds more than whitespace.
pub open spec fn has_text(s: Option<String>) -> bool {
    s matches Some(t) && !is_blank(t@)
}

pub fn string_has_text(s: &String) -> (r: bool)
    ensures
        r == !is_blank(s@),
{
    let chars = chars_of(s.as_str());
    let trimmed = trim_chars(&chars);
    trimmed.len() > 0
}

/// The title a tab shows while a document opens, from its file stem (as
/// `Path::file_stem` gives it): the stem, unless that is missing or blank, in
/// which case "PDF".
pub fn title_from_stem(stem: Option<String>) -> (r: String)
    ensures
        (stem matches Some(s) && !is_blank(s@)) ==> r@ == stem->0@,
        !(stem matches Some(s) && !is_blank(s@)) ==> r@ == "PDF"@,
{
    match stem {
        Some(s) => {
            if string_has_text(&s) {
                s
            } else {
                String::from_str("PDF")
            }
        },
        None => String::from_str("PDF"),
    }
}

/// The title a tab shows while the document at `path` opens: the file stem,
/// unless that is missing or blank, in which case "PDF".
pub fn fallback_title(path: &str) -> (r: String)
    ensures
        (path_stem_of(path@) matches Some(s) && !is_blank(s)) ==> r@ == path_stem_of(path@)->0,
        !(path_stem_of(path@) matches Some(s) && !is_blank(s)) ==> r@ == "PDF"@,
{
    title_from_stem(path_stem(path))
}

/// The title of a document from its embedded title and its file stem (as
/// `Path::file_stem` gives it): the embedded title with surrounding whitespace
/// removed, if that leaves any text; else the stem; else "kvikk pdf".
pub fn title_from(embedded: Option<String>, stem: Option<String>) -> (r: String)
    ensures
        (embedded matches Some(t) && trim(t@).len() > 0) ==> r@ == trim(embedded->0@),
        !(embedded matches Some(t) && trim(t@).len() > 0) ==> match stem {
            Some(s) => r@ == s@,
            None => r@ == "kvikk pdf"@,
        },
{
    if let Some(t) = &embedded {
        let chars = chars_of(t.as_str());
        let trimmed = trim_chars(&chars);
        if trimmed.len() > 0 {
            return string_from_chars(&trimmed);
        }
    }
    match stem {
        Some(s) => s,
        None => String::from_str("kvikk pdf"),
    }
}

/// The title of the document at `path`: its embedded title with surrounding
/// whitespace removed, if that leaves any text; else the file stem; else "kvikk pdf".
pub fn document_title(embedded: Option<String>, path: &str) -> (r: String)
    ensures
        (embedded matches Some(t) && trim(t@).len() > 0) ==> r@ == trim(embedded->0@),
        !(embedded matches Some(t) && trim(t@).len() > 0) ==> match path_stem_of(path@) {
            Some(s) => r@ == s,
            None => r@ == "kvikk pdf"@,
        },
{
    title_from(embedded, path_stem(path))
}

/// The application's own name, shown when no document title is available.
pub open spec fn app_name() -> Seq<char> {
    "kvikk pdf"@
}

/// The window title for the active tab's title: "<title> — kvikk pdf", or just
/// "kvikk pdf" when there is no title, it is blank, or it is the application name.
pub fn window_title(active_title: Option<&String>) -> (r: String)
    ensures
        (active_title matches Some(t) && !is_blank(t@) && t@ != app_name()) ==> r@ == active_title->0@
            + " \u{2014} kvikk pdf"@,
        !(active_title matches Some(t) && !is_blank(t@) && t@ != app_name()) ==> r@ == app_name(),
{
    let name = chars_of("kvikk pdf");
    match active_title {
        Some(t) => {
            let tc = chars_of(t.as_str());
            if string_has_text(t) && !chars_equal(&tc, &name) {
                let mut out = String::from_str(t.as_str());
                out.append(" \u{2014} kvikk pdf");
                out
            } else {
                String::from_str("kvikk pdf")
            }
        },
        None => String::from_str("kvikk pdf"),
    }
}

/// Whether `s` starts with `prefix` when ASCII capitals in `s` are read as lowercase.
pub open spec fn starts_with_ascii_ci(s: Seq<char>, prefix: Seq<char>) -> bool {
    s.len() >= prefix.len() && forall|i: int| 0 <= i < prefix.len() ==> ascii_lower(#[trigger] s[i]) == prefix[i]
}

fn starts_with_ascii_ci_exec(s: &Vec<char>, prefix: &Vec<char>) -> (r: bool)
    ensures
        r == starts_with_ascii_ci(s@, prefix@),
{
    if s.len() < prefix.len() {
        return false;
    }
    let mut i: usize = 0;
    while i < prefix.len()
        invariant
            i <= prefix@.len() <= s@.len(),
            forall|j: int| 0 <= j < i ==> ascii_lower(#[trigger] s@[j]) == prefix@[j],
        decreases prefix@.len() - i,
    {
        if crate::navigation::to_ascii_lower(s[i]) != prefix[i] {
            return false;
        }
        i = i + 1;
    }
    true
}

/// Whether a link may be handed to the system browser or mail client: it is an
/// `https://`, `http://` or `mailto:` link, in any letter case.
pub open spec fn spec_is_openable_url(url: Seq<char>) -> bool {
    starts_with_ascii_ci(url, "https://"@) || starts_with_ascii_ci(url, "http://"@) || starts_with_ascii_ci(
        url,
        "mailto:"@,
    )
}

pub fn is_openable_url(url: &str) -> (r: bool)
    ensures
        r == spec_is_openable_url(url@),
{
    let u = chars_of(url);
    let https = chars_of("https://");
    let http = chars_of("http://");
    let mailto = chars_of("mailto:");
    starts_with_ascii_ci_exec(&u, &https) || starts_with_ascii_ci_exec(&u, &http) || starts_with_ascii_ci_exec(
        &u,
        &mailto,
    )
}

/// Where a PDF link leads, from what the link carries: a destination page, else a
/// non-blank web address, else the page of a go-to action.
pub fn link_target(destination_page: Option<usize>, uri: Option<String>, action_page: Option<usize>) -> (r: Option<LinkTarget>)
    ensures
        destination_page matches Some(p) ==> (r matches Some(LinkTarget::Page(q)) && q == p),
        destination_page is None && has_text(uri) ==> (r matches Some(LinkTarget::Url(u)) && u@ == uri->0@),
        destination_page is None && !has_text(uri) ==> match action_page {
            Some(p) => (r matches Some(LinkTarget::Page(q)) && q == p),
            None => r is None,
        },
{
    if let Some(p) = destination_page {
        return Some(LinkTarget::Page(p));
    }
    if let Some(u) = uri {
        if string_has_text(&u) {
            return Some(LinkTarget::Url(u));
        }
    }
    match action_page {
        Some(p) => Some(LinkTarget::Page(p)),
        None => None,
    }
}

} // verus!

verus! {

/// Web and mail links are opened whatever follows their scheme and in any letter
/// case of it; links of other schemes, such as `file:` and `javascript:`, are not.
pub proof fn lemma_openable_schemes(rest: Seq<char>)
    ensures
        spec_is_openable_url("https://"@ + rest),
        spec_is_openable_url("http://"@ + rest),
        spec_is_openable_url("mailto:"@ + rest),
        spec_is_openable_url("HTTPS://"@ + rest),
        spec_is_openable_url("MailTo:"@ + rest),
        !spec_is_openable_url("file:"@ + rest),
        !spec_is_openable_url("javascript:"@ + rest),
{
    reveal_strlit("https://");
    reveal_strlit("http://");
    reveal_strlit("mailto:");
    reveal_strlit("HTTPS://");
    reveal_strlit("MailTo:");
    reveal_strlit("file:");
    reveal_strlit("javascript:");
    let s1 = "https://"@ + rest;
    assert(s1[0] == 'h' && s1[1] == 't' && s1[2] == 't' && s1[3] == 'p' && s1[4] == 's' && s1[5] == ':' && s1[6] == '/' && s1[7] == '/');
    let s2 = "http://"@ + rest;
    assert(s2[0] == 'h' && s2[1] == 't' && s2[2] == 't' && s2[3] == 'p' && s2[4] == ':' && s2[5] == '/' && s2[6] == '/');
    let s3 = "mailto:"@ + rest;
    assert(s3[0] == 'm' && s3[1] == 'a' && s3[2] == 'i' && s3[3] == 'l' && s3[4] == 't' && s3[5] == 'o' && s3[6] == ':');
    let s4 = "HTTPS://"@ + rest;
    assert(s4[0] == 'H' && s4[1] == 'T' && s4[2] == 'T' && s4[3] == 'P' && s4[4] == 'S' && s4[5] == ':' && s4[6] == '/' && s4[7] == '/');
    let s5 = "MailTo:"@ + rest;
    assert(s5[0] == 'M' && s5[1] == 'a' && s5[2] == 'i' && s5[3] == 'l' && s5[4] == 'T' && s5[5] == 'o' && s5[6] == ':');
    let s6 = "file:"@ + rest;
    assert(s6[0] == 'f');
    assert(ascii_lower(s6[0]) != 'h' && ascii_lower(s6[0]) != 'm');
    let s7 = "javascript:"@ + rest;
    assert(s7[0] == 'j');
    assert(ascii_lower(s7[0]) != 'h' && ascii_lower(s7[0]) != 'm');
    assert forall|i: int| 0 <= i < "https://"@.len() implies ascii_lower(#[trigger] s1[i]) == "https://"@[i] by {}
    assert forall|i: int| 0 <= i < "http://"@.len() implies ascii_lower(#[trigger] s2[i]) == "http://"@[i] by {}
    assert forall|i: int| 0 <= i < "mailto:"@.len() implies ascii_lower(#[trigger] s3[i]) == "mailto:"@[i] by {}
    assert forall|i: int| 0 <= i < "https://"@.len() implies ascii_lower(#[trigger] s4[i]) == "https://"@[i] by {}
    assert forall|i: int| 0 <= i < "mailto:"@.len() implies ascii_lower(#[trigger] s5[i]) == "mailto:"@[i] by {}
    assert(!starts_with_ascii_ci(s6, "https://"@) && !starts_with_ascii_ci(s6, "http://"@) && !starts_with_ascii_ci(s6, "mailto:"@)) by {
        assert("https://"@[0] == 'h' && "http://"@[0] == 'h' && "mailto:"@[0] == 'm');
    }
    assert(!starts_with_ascii_ci(s7, "https://"@) && !starts_with_ascii_ci(s7, "http://"@) && !starts_with_ascii_ci(s7, "mailto:"@)) by {
        assert("https://"@[0] == 'h' && "http://"@[0] == 'h' && "mailto:"@[0] == 'm');
    }
}

} // verus!
