//! The texts of URLs, and the queries in them.
use url::Url;
use vstd::prelude::*;
use vstd::utf8::{encode_utf8, is_ascii_chars, is_ascii_chars_encode_utf8};

verus! {

/// A URL of the `url` crate.
#[verifier::external_type_specification]
#[verifier::external_body]
pub struct ExUrl(Url);

/// The three parts of a URL's serialization: what comes before the query, the query without its
/// `?`, and the fragment without its `#`.
#[verifier::ext_equal]
pub struct UrlParts {
    pub base: Seq<char>,
    pub query: Option<Seq<char>>,
    pub fragment: Option<Seq<char>>,
}

/// The parts of a URL of the `url` crate.
pub uninterp spec fn url_parts(url: Url) -> UrlParts;

/// An optional part of a URL, behind the character that starts it.
pub open spec fn part_text(start: char, part: Option<Seq<char>>) -> Seq<char> {
    match part {
        Some(text) => seq![start] + text,
        None => Seq::empty(),
    }
}

impl UrlParts {
    /// The serialization up to the fragment.
    pub open spec fn before_fragment(self) -> Seq<char> {
        self.base + part_text('?', self.query)
    }

    /// The whole serialization.
    pub open spec fn text(self) -> Seq<char> {
        self.before_fragment() + part_text('#', self.fragment)
    }

    /// The base as it is once the query is gone. A URL without a fragment then ends there, and
    /// does not end in spaces.
    pub open spec fn bare_base(self) -> Seq<char> {
        if self.fragment is None {
            without_trailing_spaces(self.base)
        } else {
            self.base
        }
    }

    /// The URL without its query.
    pub open spec fn without_query(self) -> UrlParts {
        UrlParts { base: self.bare_base(), query: None, fragment: self.fragment }
    }

    /// The URL with `name=value` at the end of its query.
    pub open spec fn with_pair(self, name: Seq<char>, value: Seq<char>) -> UrlParts {
        let pair = name + seq!['='] + value;
        let query = match self.query {
            Some(query) => if query.len() > 0 {
                query + seq!['&'] + pair
            } else {
                pair
            },
            None => pair,
        };
        UrlParts { query: Some(query), ..self }
    }
}

/// A text without the spaces at its end.
pub open spec fn without_trailing_spaces(text: Seq<char>) -> Seq<char>
    decreases text.len(),
{
    if text.len() > 0 && text.last() == ' ' {
        without_trailing_spaces(text.drop_last())
    } else {
        text
    }
}

/// A character that stands for itself in a query, in `application/x-www-form-urlencoded` syntax.
pub open spec fn plain_in_form(c: char) -> bool {
    ||| 'a' <= c <= 'z'
    ||| 'A' <= c <= 'Z'
    ||| '0' <= c <= '9'
    ||| c == '*'
    ||| c == '-'
    ||| c == '.'
    ||| c == '_'
}

/// Calls `Url::clone`. The copy is the same URL.
pub assume_specification[ <Url as Clone>::clone ](url: &Url) -> (copy: Url)
    ensures
        copy == *url,
;

/// Calls `Url::set_query` with `None`, which takes the query away and keeps the fragment. Where
/// there is no fragment, spaces at the end of an opaque path go too; nothing else that a query
/// can follow ends in spaces.
#[verifier::external_body]
pub(crate) fn clear_query(url: &mut Url)
    ensures
        url_parts(*final(url)) == url_parts(*old(url)).without_query(),
{
    url.set_query(None)
}

/// Calls `Url::query_pairs_mut` and, on what it gives, `append_pair`, for a name and a value whose
/// characters stand for themselves. The pair goes to the end of the query, behind a `&` unless
/// the query is missing or empty. Where the query and the fragment start is counted in 32 bits.
#[verifier::external_body]
pub(crate) fn append_query_pair(url: &mut Url, name: &str, value: &str)
    requires
        forall|i: int| 0 <= i < name@.len() ==> plain_in_form(#[trigger] name@[i]),
        forall|i: int| 0 <= i < value@.len() ==> plain_in_form(#[trigger] value@[i]),
        encode_utf8(url_parts(*old(url)).before_fragment()).len() + name@.len() + value@.len() + 2
            <= u32::MAX,
    ensures
        url_parts(*final(url)) == url_parts(*old(url)).with_pair(name@, value@),
{
    url.query_pairs_mut().append_pair(name, value);
}

/// Calls `String::from` for a `Url`, which gives its serialization: the parts one after the other.
#[verifier::external_body]
pub(crate) fn url_into_string(url: Url) -> (text: String)
    ensures
        text@ == url_parts(url).text(),
{
    String::from(url)
}

/// A character that stands for itself in a percent-encoded text.
pub open spec fn unreserved(byte: u8) -> bool {
    ||| 'a' as u8 <= byte <= 'z' as u8
    ||| 'A' as u8 <= byte <= 'Z' as u8
    ||| '0' as u8 <= byte <= '9' as u8
    ||| byte == '-' as u8
    ||| byte == '.' as u8
    ||| byte == '_' as u8
    ||| byte == '~' as u8
}

/// The upper-case hexadecimal digit of a number below 16.
pub open spec fn hex_digit(n: u8) -> char {
    if n < 10 {
        ('0' as u8 + n) as char
    } else {
        ('A' as u8 + n - 10) as char
    }
}

/// Bytes in percent-encoding: those that are not unreserved as `%` and two hexadecimal digits.
pub open spec fn percent_encoded(bytes: Seq<u8>) -> Seq<char>
    decreases bytes.len(),
{
    if bytes.len() == 0 {
        Seq::empty()
    } else {
        let byte = bytes.last();
        percent_encoded(bytes.drop_last()) + if unreserved(byte) {
            seq![byte as char]
        } else {
            seq!['%', hex_digit(byte / 16), hex_digit(byte % 16)]
        }
    }
}

/// Calls `urlencoding::encode`, which percent-encodes the UTF-8 bytes of a text.
#[verifier::external_body]
fn percent_encode(text: &str) -> (encoded: String)
    ensures
        encoded@ == percent_encoded(encode_utf8(text@)),
{
    urlencoding::encode(text).into_owned()
}

/// The parameters of a query, `key=value` with the value percent-encoded, a `&` between each two.
pub open spec fn query(params: Seq<(Seq<char>, Seq<char>)>) -> Seq<char>
    decreases params.len(),
{
    if params.len() == 0 {
        Seq::empty()
    } else {
        let param = params.last().0 + seq!['='] + percent_encoded(encode_utf8(params.last().1));
        if params.len() == 1 {
            param
        } else {
            query(params.drop_last()) + seq!['&'] + param
        }
    }
}

/// The keys and values of a list of parameters.
pub open spec fn params_view(params: Seq<(&'static str, String)>) -> Seq<(Seq<char>, Seq<char>)> {
    params.map_values(|param: (&'static str, String)| (param.0@, param.1@))
}

/// Writes the parameters of a query.
pub fn query_text(params: &Vec<(&'static str, String)>) -> (text: String)
    ensures
        text@ == query(params_view(params@)),
{
    let mut text = String::new();
    let mut at: usize = 0;
    let ghost all = params_view(params@);
    while at < params.len()
        invariant
            at <= params.len(),
            all == params_view(params@),
            text@ == query(all.take(at as int)),
        decreases params.len() - at,
    {
        let ghost longer = all.take(at + 1);
        proof {
            reveal_strlit("&");
            reveal_strlit("=");
            assert("&"@ =~= seq!['&']);
            assert("="@ =~= seq!['=']);
            assert(longer.drop_last() =~= all.take(at as int));
            assert(longer.last() == (params@[at as int].0@, params@[at as int].1@));
        }
        if at > 0 {
            text.append("&");
        }
        text.append(params[at].0);
        text.append("=");
        let encoded = percent_encode(params[at].1.as_str());
        text.append(encoded.as_str());
        proof {
            assert(text@ =~= query(longer));
        }
        at = at + 1;
    }
    proof {
        assert(all.take(at as int) =~= all);
    }
    text
}

/// A text of unreserved characters is its own percent-encoding.
pub proof fn lemma_unreserved_text_is_kept(text: Seq<char>)
    requires
        forall|i: int|
            0 <= i < text.len() ==> '\0' <= #[trigger] text[i] <= '\u{7f}' && unreserved(
                text[i] as u8,
            ),
    ensures
        percent_encoded(encode_utf8(text)) == text,
{
    assert(is_ascii_chars(text));
    is_ascii_chars_encode_utf8(text);
    let bytes = encode_utf8(text);
    assert(bytes.take(0) =~= Seq::empty());
    lemma_unreserved_bytes_are_kept(bytes);
    assert(Seq::new(bytes.len(), |i: int| bytes[i] as char) =~= text);
}

proof fn lemma_unreserved_bytes_are_kept(bytes: Seq<u8>)
    requires
        forall|i: int| 0 <= i < bytes.len() ==> unreserved(#[trigger] bytes[i]),
    ensures
        percent_encoded(bytes) == Seq::new(bytes.len(), |i: int| bytes[i] as char),
    decreases bytes.len(),
{
    if bytes.len() > 0 {
        lemma_unreserved_bytes_are_kept(bytes.drop_last());
        assert(unreserved(bytes[bytes.len() - 1]));
    }
    assert(percent_encoded(bytes) =~= Seq::new(bytes.len(), |i: int| bytes[i] as char));
}

/// The UTF-8 bytes of two texts, one after the other.
pub proof fn lemma_encode_concat(a: Seq<char>, b: Seq<char>)
    ensures
        encode_utf8(a + b) == encode_utf8(a) + encode_utf8(b),
    decreases a.len(),
{
    if a.len() == 0 {
        assert(a + b =~= b);
        assert(encode_utf8(a) + encode_utf8(b) =~= encode_utf8(b));
    } else {
        lemma_encode_concat(a.drop_first(), b);
        assert((a + b).drop_first() =~= a.drop_first() + b);
        assert(encode_utf8(a + b) =~= encode_utf8(a) + encode_utf8(b));
    }
}

/// Taking spaces away from the end does not make a text longer.
pub proof fn lemma_without_trailing_spaces(text: Seq<char>)
    ensures
        encode_utf8(without_trailing_spaces(text)).len() <= encode_utf8(text).len(),
    decreases text.len(),
{
    if text.len() > 0 && text.last() == ' ' {
        lemma_without_trailing_spaces(text.drop_last());
        assert(text =~= text.drop_last() + seq![text.last()]);
        lemma_encode_concat(text.drop_last(), seq![text.last()]);
    }
}

/// A query is written parameter by parameter: `key=value`, the value percent-encoded, and each but
/// the first behind a `&`.
pub proof fn law_each_parameter_is_written_behind_the_others(
    params: Seq<(Seq<char>, Seq<char>)>,
    key: Seq<char>,
    value: Seq<char>,
)
    ensures
        query(Seq::empty()) == Seq::<char>::empty(),
        query(seq![(key, value)]) == key + seq!['='] + percent_encoded(encode_utf8(value)),
        params.len() > 0 ==> query(params.push((key, value))) == query(params) + seq!['&'] + query(
            seq![(key, value)],
        ),
{
    assert(params.push((key, value)).drop_last() =~= params);
}

/// The model of a list of parameters has the key and the value of each, in the same order.
pub proof fn law_parameters_are_modelled_one_by_one(params: Seq<(&'static str, String)>, i: int)
    requires
        0 <= i < params.len(),
    ensures
        params_view(params).len() == params.len(),
        params_view(params)[i] == (params[i].0@, params[i].1@),
{
}

} // verus!
