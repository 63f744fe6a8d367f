//! Whether a request lets the service answer in UTF-8 encoded JSON, as its
//! `Accept-Charset` and `Accept` headers say.
use crate::res::{RequestError, err_not_acceptable, not_acceptable};
use vstd::prelude::*;

verus! {

/// A charset named in an `Accept-Charset` header. A charset of the IANA
/// registry that HTTP names is `Registered`, with its name; any other is
/// `Ext`, with the name as the request wrote it in upper case.
#[derive(Clone, Debug)]
pub enum Charset {
    Registered(String),
    Ext(String),
}

/// One parameter of a media range, such as `charset=utf-8`, as the names of
/// its attribute and value.
#[derive(Clone, Debug)]
pub struct MediaParam {
    pub attr: String,
    pub value: String,
}

/// A media range of an `Accept` header, such as `application/json`: the
/// names of its top level, its sub level and its parameters.
#[derive(Clone, Debug)]
pub struct MediaRange {
    pub top: String,
    pub sub: String,
    pub params: Vec<MediaParam>,
}

/// The charset is UTF-8, as one of the names a request gives it.
pub open spec fn charset_acceptable(c: Charset) -> bool {
    match c {
        Charset::Ext(s) => s@ == "utf8"@ || s@ == "UTF8"@ || s@ == "utf-8"@ || s@ == "UTF-8"@,
        Charset::Registered(_) => false,
    }
}

/// The media range admits JSON: `*/*`-like, `application/json` or
/// `application/*`.
pub open spec fn json_admitted(m: MediaRange) -> bool {
    m.top@ == "*"@ || (m.top@ == "application"@ && (m.sub@ == "json"@ || m.sub@ == "*"@))
}

/// The parameter names a charset.
pub open spec fn is_charset_param(p: MediaParam) -> bool {
    p.attr@ == "charset"@
}

/// The parameter names the charset UTF-8.
pub open spec fn is_utf8_param(p: MediaParam) -> bool {
    p.attr@ == "charset"@ && p.value@ == "utf-8"@
}

/// The parameters admit UTF-8: one of them names UTF-8 as the charset, or
/// none of them names a charset.
pub open spec fn utf8_admitted(ps: Seq<MediaParam>) -> bool {
    (exists|i: int| 0 <= i < ps.len() && is_utf8_param(#[trigger] ps[i])) || !(exists|i: int|
        0 <= i < ps.len() && is_charset_param(#[trigger] ps[i]))
}

/// The media range admits UTF-8 encoded JSON.
pub open spec fn media_acceptable(m: MediaRange) -> bool {
    json_admitted(m) && utf8_admitted(m.params@)
}

/// An `Accept-Charset` list allows UTF-8: it is empty or one of its
/// charsets is UTF-8.
pub open spec fn charsets_allow_utf8(cs: Seq<Charset>) -> bool {
    cs.len() == 0 || exists|i: int| 0 <= i < cs.len() && charset_acceptable(#[trigger] cs[i])
}

/// An `Accept` list allows UTF-8 JSON: it is empty or one of its media
/// ranges admits it.
pub open spec fn media_allow_json(ms: Seq<MediaRange>) -> bool {
    ms.len() == 0 || exists|i: int| 0 <= i < ms.len() && media_acceptable(#[trigger] ms[i])
}

/// A request with these headers may be answered in UTF-8 JSON. Where the
/// request has an `Accept-Charset` header, it alone decides; else the
/// `Accept` header decides; a request with neither is answered.
pub open spec fn request_acceptable(
    accept_charset: Option<Seq<Charset>>,
    accept: Option<Seq<MediaRange>>,
) -> bool {
    match accept_charset {
        Some(cs) => charsets_allow_utf8(cs),
        None => match accept {
            Some(ms) => media_allow_json(ms),
            None => true,
        },
    }
}

/// The view of an optional header list.
pub open spec fn header_view<T>(h: Option<&Vec<T>>) -> Option<Seq<T>> {
    match h {
        Some(v) => Some(v@),
        None => None,
    }
}

/// A charset allows a UTF-8 answer exactly where the request wrote it as
/// `utf8` or `utf-8`, in lower or upper case; no charset of the registry is
/// UTF-8.
pub proof fn law_utf8_charset_names(c: Charset)
    ensures
        c is Registered ==> !charset_acceptable(c),
        c matches Charset::Ext(s) ==> (charset_acceptable(c) <==> (s@ == "utf8"@ || s@ == "UTF8"@
            || s@ == "utf-8"@ || s@ == "UTF-8"@)),
{
}

/// Where the request has an `Accept-Charset` header, its `Accept` header
/// does not matter.
pub proof fn law_accept_charset_decides_alone(
    cs: Seq<Charset>,
    a: Option<Seq<MediaRange>>,
    b: Option<Seq<MediaRange>>,
)
    ensures
        request_acceptable(Some(cs), a) == request_acceptable(Some(cs), b),
{
}

/// A UTF-8 charset anywhere in the `Accept-Charset` list lets the request
/// through; an empty list does too.
pub proof fn law_any_utf8_charset_accepts(cs: Seq<Charset>, i: int, a: Option<Seq<MediaRange>>)
    requires
        0 <= i < cs.len(),
        charset_acceptable(cs[i]),
    ensures
        request_acceptable(Some(cs), a),
        request_acceptable(Some(Seq::<Charset>::empty()), a),
{
}

/// A non-empty `Accept-Charset` list without a UTF-8 charset refuses the
/// request.
pub proof fn law_no_utf8_charset_refuses(cs: Seq<Charset>, a: Option<Seq<MediaRange>>)
    requires
        cs.len() > 0,
        forall|j: int| 0 <= j < cs.len() ==> !charset_acceptable(#[trigger] cs[j]),
    ensures
        !request_acceptable(Some(cs), a),
{
}

/// Without `Accept-Charset`, a media range anywhere in the `Accept` list
/// that admits UTF-8 JSON lets the request through; so do an empty list
/// and a missing header.
pub proof fn law_any_json_media_accepts(ms: Seq<MediaRange>, i: int)
    requires
        0 <= i < ms.len(),
        media_acceptable(ms[i]),
    ensures
        request_acceptable(None, Some(ms)),
        request_acceptable(None, Some(Seq::<MediaRange>::empty())),
        request_acceptable(None, None),
{
}

/// Without `Accept-Charset`, a non-empty `Accept` list none of whose media
/// ranges admits UTF-8 JSON refuses the request.
pub proof fn law_no_json_media_refuses(ms: Seq<MediaRange>)
    requires
        ms.len() > 0,
        forall|j: int| 0 <= j < ms.len() ==> !media_acceptable(#[trigger] ms[j]),
    ensures
        !request_acceptable(None, Some(ms)),
{
}

/// A media range admits UTF-8 JSON only where its type is `*/..`,
/// `application/json` or `application/*`, whatever its parameters say.
pub proof fn law_media_type_required(m: MediaRange)
    ensures
        media_acceptable(m) ==> (m.top@ == "*"@ || (m.top@ == "application"@ && (m.sub@
            == "json"@ || m.sub@ == "*"@))),
{
}

/// Of a media range of such a type, the parameters decide: it admits UTF-8
/// JSON where no parameter is a charset, or where one of them is
/// `charset=utf-8`; a charset parameter without `charset=utf-8` refuses it.
pub proof fn law_media_charset_params(m: MediaRange)
    requires
        m.top@ == "*"@ || (m.top@ == "application"@ && (m.sub@ == "json"@ || m.sub@ == "*"@)),
    ensures
        (forall|j: int| 0 <= j < m.params@.len() ==> (#[trigger] m.params@[j]).attr@ != "charset"@)
            ==> media_acceptable(m),
        (exists|j: int|
            0 <= j < m.params@.len() && (#[trigger] m.params@[j]).attr@ == "charset"@
                && m.params@[j].value@ == "utf-8"@) ==> media_acceptable(m),
        ((exists|j: int| 0 <= j < m.params@.len() && (#[trigger] m.params@[j]).attr@ == "charset"@)
            && (forall|j: int|
            0 <= j < m.params@.len() && (#[trigger] m.params@[j]).attr@ == "charset"@
                ==> m.params@[j].value@ != "utf-8"@)) ==> !media_acceptable(m),
{
    let ps = m.params@;
    if forall|j: int| 0 <= j < ps.len() ==> (#[trigger] ps[j]).attr@ != "charset"@ {
        assert(!exists|j: int| 0 <= j < ps.len() && is_charset_param(#[trigger] ps[j]));
    }
    if exists|j: int|
        0 <= j < ps.len() && (#[trigger] ps[j]).attr@ == "charset"@ && ps[j].value@ == "utf-8"@ {
        let j = choose|j: int|
            0 <= j < ps.len() && (#[trigger] ps[j]).attr@ == "charset"@ && ps[j].value@
                == "utf-8"@;
        assert(is_utf8_param(ps[j]));
    }
    if (exists|j: int| 0 <= j < ps.len() && (#[trigger] ps[j]).attr@ == "charset"@) && (forall|
        j: int,
    |
        0 <= j < ps.len() && (#[trigger] ps[j]).attr@ == "charset"@ ==> ps[j].value@
            != "utf-8"@) {
        let j = choose|j: int| 0 <= j < ps.len() && (#[trigger] ps[j]).attr@ == "charset"@;
        assert(is_charset_param(ps[j]));
    }
}

/// `a` and `b` hold the same characters.
fn same_text(a: &String, b: &str) -> (r: bool)
    ensures
        r == (a@ == b@),
{
    let b = b.to_owned();
    *a == b
}

/// Whether the charset is UTF-8.
pub fn charset_is_acceptable(c: &Charset) -> (r: bool)
    ensures
        r == charset_acceptable(*c),
{
    if let Charset::Ext(s) = c {
        same_text(s, "utf8") || same_text(s, "UTF8") || same_text(s, "utf-8") || same_text(
            s,
            "UTF-8",
        )
    } else {
        false
    }
}

/// Whether the media range admits UTF-8 encoded JSON.
pub fn mime_is_acceptable(m: &MediaRange) -> (r: bool)
    ensures
        r == media_acceptable(*m),
{
    // neither */*, application/*, nor application/json: JSON is not admitted
    if !same_text(&m.top, "*") && (!same_text(&m.top, "application") || (!same_text(&m.sub, "json")
        && !same_text(&m.sub, "*"))) {
        return false;
    }
    let ghost ps = m.params@;
    let mut has_charset = false;
    let mut i: usize = 0;
    while i < m.params.len()
        invariant
            ps == m.params@,
            json_admitted(*m),
            i <= ps.len(),
            forall|j: int| 0 <= j < i ==> !is_utf8_param(#[trigger] ps[j]),
            has_charset <==> exists|j: int| 0 <= j < i && is_charset_param(#[trigger] ps[j]),
        decreases ps.len() - i,
    {
        let p = &m.params[i];
        if same_text(&p.attr, "charset") {
            // a charset of UTF-8 admits UTF-8
            if same_text(&p.value, "utf-8") {
                assert(is_utf8_param(ps[i as int]));
                return true;
            }
            has_charset = true;
            assert(is_charset_param(ps[i as int]));
        }
        i = i + 1;
    }
    // no charset given: UTF-8 is admitted; another charset given: it is not
    !has_charset
}

/// The check made before a request is handled: that the service may answer
/// it in UTF-8 encoded JSON.
#[derive(Clone, Copy, Debug)]
pub struct VerifyAcceptable;

impl VerifyAcceptable {
    /// Lets the request through where its `Accept-Charset` header (or, where
    /// it has none, its `Accept` header) allows UTF-8 JSON; refuses it with
    /// `406` otherwise.
    pub fn before(&self, accept_charset: Option<&Vec<Charset>>, accept: Option<&Vec<MediaRange>>) -> (r:
        Result<(), RequestError>)
        ensures
            r is Ok <==> request_acceptable(header_view(accept_charset), header_view(accept)),
            r matches Err(e) ==> e == not_acceptable(),
    {
        // the charset must be UTF-8
        if let Some(charsets) = accept_charset {
            if charsets.len() == 0 {
                return Ok(());
            }
            let mut i: usize = 0;
            while i < charsets.len()
                invariant
                    header_view(accept_charset) == Some(charsets@),
                    i <= charsets@.len(),
                    forall|j: int| 0 <= j < i ==> !charset_acceptable(#[trigger] charsets@[j]),
                decreases charsets@.len() - i,
            {
                if charset_is_acceptable(&charsets[i]) {
                    assert(charset_acceptable(charsets@[i as int]));
                    return Ok(());
                }
                i = i + 1;
            }
            return err_not_acceptable();
        }
        // the acceptable media types must admit UTF-8 JSON
        if let Some(mimes) = accept {
            if mimes.len() == 0 {
                return Ok(());
            }
            let mut i: usize = 0;
            while i < mimes.len()
                invariant
                    header_view(accept_charset) is None,
                    header_view(accept) == Some(mimes@),
                    i <= mimes@.len(),
                    forall|j: int| 0 <= j < i ==> !media_acceptable(#[trigger] mimes@[j]),
                decreases mimes@.len() - i,
            {
                if mime_is_acceptable(&mimes[i]) {
                    assert(media_acceptable(mimes@[i as int]));
                    return Ok(());
                }
                i = i + 1;
            }
            return err_not_acceptable();
        }
        Ok(())
    }
}

} // verus!
