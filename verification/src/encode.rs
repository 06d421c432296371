//! Building of lookup API request strings: the GET query for a single
//! lookup, the POST query for a batch lookup, and the batch request body.

use vstd::prelude::*;

use crate::gsberror::GSBError;
use crate::text::{
    dec_digits, join_char, lemma_dec_digits_are_digits, lemma_join_push, lemma_parse_dec_digits,
    lemma_split_join_roundtrip, parse_dec, split_char, usize_to_string, views_of, is_digit,
};
use crate::{GSBClient, URL_LIMIT};

verus! {

/// The form-urlencoding of `s`, as the `url` crate computes it.  The
/// encoding is a function of the characters alone.
pub uninterp spec fn form_encoded_of(s: Seq<char>) -> Seq<char>;

/// Relies on `url::form_urlencoded::byte_serialize`: percent-encodes the
/// bytes of `s` as application/x-www-form-urlencoded, a pure function of
/// its input.
#[verifier::external_body]
fn encode_query_value(s: &str) -> (r: String)
    ensures
        r@ == form_encoded_of(s@),
{
    url::form_urlencoded::byte_serialize(s.as_bytes()).collect()
}

/// The fixed lookup endpoint, ready for query parameters.
pub open spec fn query_base() -> Seq<char> {
    "https://sb-ssl.google.com/safebrowsing/api/lookup?"@
}

/// The query string of a batch (POST) lookup: the client identity fields
/// in the fixed order `client`, `key`, `appver`, `pver`, each value
/// form-urlencoded.
pub open spec fn batch_query_spec(c: GSBClient) -> Seq<char> {
    query_base() + "client="@ + form_encoded_of(c.client_name@) + "&key="@ + form_encoded_of(
        c.api_key@,
    ) + "&appver="@ + form_encoded_of(c.app_ver@) + "&pver="@ + form_encoded_of(c.pver@)
}

/// The query string of a single (GET) lookup: the batch query followed by
/// the form-urlencoded URL under the `url` parameter.
pub open spec fn single_query_spec(c: GSBClient, url: Seq<char>) -> Seq<char> {
    batch_query_spec(c) + "&url="@ + form_encoded_of(url)
}

/// The body of a batch (POST) lookup: the decimal URL count and the URLs
/// in caller order, joined by `'\n'`, with no trailing newline.
pub open spec fn batch_body_spec(urls: Seq<Seq<char>>) -> Seq<char> {
    join_char(seq![dec_digits(urls.len())] + urls, '\n')
}

impl GSBClient {
    /// Builds the query string for a single lookup of `url`.  The result
    /// is a function of the client identity and the URL alone: identical
    /// inputs always yield an identical string.
    pub fn build_single_query(&self, url: &str) -> (r: String)
        ensures
            r@ == single_query_spec(*self, url@),
    {
        let mut r = self.build_batch_query();
        r.append("&url=");
        let v = encode_query_value(url);
        r.append(v.as_str());
        r
    }

    /// Builds the query string for a batch lookup.  The result is a
    /// function of the client identity alone: identical inputs always
    /// yield an identical string.
    pub fn build_batch_query(&self) -> (r: String)
        ensures
            r@ == batch_query_spec(*self),
    {
        let mut r = String::from_str("https://sb-ssl.google.com/safebrowsing/api/lookup?");
        r.append("client=");
        let v = encode_query_value(self.client_name.as_str());
        r.append(v.as_str());
        r.append("&key=");
        let v = encode_query_value(self.api_key.as_str());
        r.append(v.as_str());
        r.append("&appver=");
        let v = encode_query_value(self.app_ver.as_str());
        r.append(v.as_str());
        r.append("&pver=");
        let v = encode_query_value(self.pver.as_str());
        r.append(v.as_str());
        r
    }
}

/// Builds the body of a batch lookup request: the decimal URL count, then
/// the URLs in caller order, joined by `'\n'`.  Fails with
/// [`GSBError::TooManyUrls`] if more than [`URL_LIMIT`] URLs are given,
/// before any request is built or sent.
pub fn build_batch_body(urls: &Vec<String>) -> (r: Result<String, GSBError>)
    ensures
        urls@.len() > URL_LIMIT ==> r == Err::<String, GSBError>(GSBError::TooManyUrls),
        urls@.len() <= URL_LIMIT ==> (r matches Ok(body) && body@ == batch_body_spec(
            views_of(urls@),
        )),
{
    if urls.len() > URL_LIMIT {
        return Err(GSBError::TooManyUrls);
    }
    let ghost views = views_of(urls@);
    let mut body = usize_to_string(urls.len());
    proof {
        assert(views.len() == urls@.len());
        assert(seq![dec_digits(views.len())] + views.subrange(0, 0) =~= seq![
            dec_digits(views.len()),
        ]);
        assert(join_char(seq![dec_digits(views.len())], '\n') == dec_digits(views.len()));
    }
    let mut i: usize = 0;
    while i < urls.len()
        invariant
            i <= urls@.len(),
            views == views_of(urls@),
            body@ == join_char(seq![dec_digits(views.len())] + views.subrange(0, i as int), '\n'),
        decreases urls@.len() - i,
    {
        body.append("\n");
        body.append(urls[i].as_str());
        proof {
            reveal_strlit("\n");
            assert("\n"@ =~= seq!['\n']);
            let parts = seq![dec_digits(views.len())] + views.subrange(0, i as int);
            lemma_join_push(parts, '\n', views[i as int]);
            assert(parts.push(views[i as int]) =~= seq![dec_digits(views.len())] + views.subrange(
                0,
                i + 1,
            ));
        }
        i = i + 1;
    }
    proof {
        assert(views.subrange(0, views.len() as int) =~= views);
    }
    Ok(body)
}

/// Determinism of request encoding: for a fixed client identity and URL,
/// every call of [`GSBClient::build_single_query`] returns the same
/// string, character for character.
pub proof fn lemma_single_query_deterministic(
    c: GSBClient,
    url: Seq<char>,
    r1: Seq<char>,
    r2: Seq<char>,
)
    requires
        r1 == single_query_spec(c, url),
        r2 == single_query_spec(c, url),
    ensures
        r1 == r2,
{
}

/// Round trip of the batch body: splitting [`batch_body_spec`] on `'\n'`
/// yields the decimal URL count followed by exactly the URLs in their
/// original order, and the count line parses as the number of URLs.
/// Holds for URLs that contain no `'\n'` themselves.
pub proof fn lemma_batch_body_round_trip(urls: Seq<Seq<char>>)
    requires
        urls.len() <= URL_LIMIT,
        forall|i: int| 0 <= i < urls.len() ==> !(#[trigger] urls[i]).contains('\n'),
    ensures
        ({
            let lines = split_char(batch_body_spec(urls), '\n');
            &&& lines.len() == urls.len() + 1
            &&& lines[0] == dec_digits(urls.len())
            &&& lines.subrange(1, lines.len() as int) == urls
            &&& parse_dec(lines[0]) == urls.len()
        }),
{
    let count = dec_digits(urls.len());
    let parts = seq![count] + urls;
    assert(!count.contains('\n')) by {
        lemma_dec_digits_are_digits(urls.len());
        if count.contains('\n') {
            let i = choose|i: int| 0 <= i < count.len() && count[i] == '\n';
            assert(is_digit(count[i]));
        }
    }
    assert(forall|i: int| 0 <= i < parts.len() ==> !(#[trigger] parts[i]).contains('\n')) by {
        assert(parts[0] == count);
        assert(forall|i: int| 1 <= i < parts.len() ==> parts[i] == urls[i - 1]);
    }
    lemma_split_join_roundtrip(parts, '\n');
    let lines = split_char(batch_body_spec(urls), '\n');
    assert(lines == parts);
    assert(lines.subrange(1, lines.len() as int) =~= urls);
    lemma_parse_dec_digits(urls.len());
}

} // verus!
