use vstd::prelude::*;

use super::config::Config;
use crate::error::Error;

verus! {

/// What `url::Url::parse` makes of a string: `None` where the parse fails,
/// and the serialization of the parsed URL otherwise. Parsing is a function
/// of the input string alone, so the result can be given this name.
pub uninterp spec fn url_parse(s: Seq<char>) -> Option<Seq<char>>;

/// Relies on `url::Url::parse`: whether a string parses as an absolute URL,
/// and the serialization of the URL it yields (`From<Url> for String` hands
/// out that serialization), depend on the input string alone.
#[verifier::external_body]
fn parse_url_text(s: &str) -> (r: Result<String, url::ParseError>)
    ensures
        r is Ok <==> url_parse(s@) is Some,
        r matches Ok(t) ==> url_parse(s@) == Some(t@),
{
    url::Url::parse(s).map(String::from)
}

/// A parsed URL, held as its serialization.
///
/// A value of this type is only built by `Url::parse`, so its text is always
/// the serialization of some successfully parsed URL string.
#[derive(Debug)]
pub struct Url {
    text: String,
}

impl View for Url {
    type V = Seq<char>;

    closed spec fn view(&self) -> Seq<char> {
        self.text@
    }
}

impl Clone for Url {
    fn clone(&self) -> (r: Self)
        ensures
            r@ == self@,
    {
        Url { text: String::from_str(self.text.as_str()) }
    }
}

impl Url {
    /// Parses an absolute URL from a string; fails on malformed input with
    /// the underlying parse error.
    pub fn parse(s: &str) -> (r: Result<Url, Error>)
        ensures
            r is Ok <==> url_parse(s@) is Some,
            r matches Ok(u) ==> url_parse(s@) == Some(u@),
            r matches Err(e) ==> e matches Error::ParseURL(_),
    {
        match parse_url_text(s) {
            Ok(text) => Ok(Url { text }),
            Err(e) => Err(Error::ParseURL(e)),
        }
    }

    /// Returns the serialization of this URL.
    pub fn as_str(&self) -> (r: &str)
        ensures
            r@ == self@,
    {
        self.text.as_str()
    }
}

/// The final `/`-delimited segment of a string: everything after the last
/// `/`, or the whole string if it holds no `/`. Empty exactly when the
/// string is empty or ends in `/`.
pub open spec fn last_segment(s: Seq<char>) -> Seq<char>
    decreases s.len(),
{
    if s.len() == 0 {
        Seq::empty()
    } else if s.last() == '/' {
        Seq::empty()
    } else {
        last_segment(s.drop_last()).push(s.last())
    }
}

proof fn lemma_last_segment_is_suffix(s: Seq<char>, i: int)
    requires
        0 <= i <= s.len(),
        forall|j: int| i <= j < s.len() ==> s[j] != '/',
        i == 0 || s[i - 1] == '/',
    ensures
        last_segment(s) == s.subrange(i, s.len() as int),
    decreases s.len(),
{
    if i == s.len() {
        assert(s.subrange(i, s.len() as int) =~= Seq::empty());
    } else {
        assert(s.last() != '/');
        lemma_last_segment_is_suffix(s.drop_last(), i);
        assert(s.drop_last().subrange(i, s.len() - 1).push(s.last()) =~= s.subrange(
            i,
            s.len() as int,
        ));
    }
}

/// What contracts see of a task: its URL's serialization and its filename.
pub struct TaskView {
    pub url: Seq<char>,
    pub filename: Seq<char>,
}

/// A download task: a URL to download from paired with the filename the
/// download is saved under.
///
/// Invariant: the filename is non-empty, and the constructors below derive
/// it from the URL's final path segment.
#[derive(Debug)]
pub struct Task {
    url: Url,
    filename: String,
}

impl View for Task {
    type V = TaskView;

    closed spec fn view(&self) -> TaskView {
        TaskView { url: self.url@, filename: self.filename@ }
    }
}

impl Task {
    /// A well-formed task names a non-empty file.
    pub open spec fn wf(self) -> bool {
        self@.filename.len() > 0
    }

    /// Creates a new task with the given download URL and output filename.
    ///
    /// Fails with `InvalidURL` when the filename is empty, which keeps the
    /// invariant that a task always names a non-empty file.
    pub fn new(download_url: &Url, file_path: &str) -> (r: Result<Task, Error>)
        ensures
            file_path@.len() > 0 ==> (r matches Ok(t) && t@ == (TaskView {
                url: download_url@,
                filename: file_path@,
            }) && t.wf()),
            file_path@.len() == 0 ==> (r matches Err(e) && e matches Error::InvalidURL(u)
                && u@ == download_url@),
    {
        if file_path.unicode_len() == 0 {
            Err(Error::InvalidURL(String::from_str(download_url.as_str())))
        } else {
            Ok(Task { url: download_url.clone(), filename: String::from_str(file_path) })
        }
    }

    /// Returns the download URL.
    pub fn url(&self) -> (r: &Url)
        ensures
            r@ == self@.url,
    {
        &self.url
    }

    /// Returns the output filename.
    pub fn filename(&self) -> (r: &str)
        ensures
            r@ == self@.filename,
    {
        self.filename.as_str()
    }

    /// Resolves the write destination: the configured destination directory
    /// with the task's filename appended to it, with no separator inserted
    /// and no normalization, so a configured path is expected to end in one.
    pub fn destination(&self, config: &Config) -> (p: String)
        ensures
            p@ == config@ + self@.filename,
    {
        let mut p = String::from_str(config.path());
        p.append(self.filename.as_str());
        p
    }
}

impl vstd::std_specs::convert::TryFromSpecImpl<&Url> for Task {
    open spec fn obeys_try_from_spec() -> bool {
        false
    }

    open spec fn try_from_spec(v: &Url) -> Result<Task, Error> {
        arbitrary()
    }
}

impl TryFrom<&Url> for Task {
    type Error = Error;

    /// Derives the task's filename from the final `/`-delimited segment of
    /// the URL's serialization; fails with `InvalidURL` when that segment is
    /// empty (the URL ends in `/` or has no path).
    fn try_from(url: &Url) -> (r: Result<Task, Error>)
        ensures
            last_segment(url@).len() > 0 ==> (r matches Ok(t) && t@ == (TaskView {
                url: url@,
                filename: last_segment(url@),
            }) && t.wf()),
            last_segment(url@).len() == 0 ==> (r matches Err(e) && e matches Error::InvalidURL(u)
                && u@ == url@),
    {
        let filename = last_segment_of(url.as_str());
        Task::new(url, filename.as_str())
    }
}

impl vstd::std_specs::convert::TryFromSpecImpl<&str> for Task {
    open spec fn obeys_try_from_spec() -> bool {
        false
    }

    open spec fn try_from_spec(v: &str) -> Result<Task, Error> {
        arbitrary()
    }
}

impl TryFrom<&str> for Task {
    type Error = Error;

    /// Parses the string as a URL first (a malformed string fails with the
    /// parse error, never with `InvalidURL`), then derives the filename from
    /// the final `/`-delimited segment of the URL's serialization, failing
    /// with `InvalidURL` when that segment is empty.
    fn try_from(s: &str) -> (r: Result<Task, Error>)
        ensures
            url_parse(s@) is None ==> (r matches Err(e) && e matches Error::ParseURL(_)),
            url_parse(s@) is Some && last_segment(url_parse(s@).unwrap()).len() > 0 ==> (r matches
                Ok(task) && task@ == (TaskView {
                url: url_parse(s@).unwrap(),
                filename: last_segment(url_parse(s@).unwrap()),
            }) && task.wf()),
            url_parse(s@) is Some && last_segment(url_parse(s@).unwrap()).len() == 0 ==> (r matches
                Err(e) && e matches Error::InvalidURL(u) && u@ == url_parse(s@).unwrap()),
    {
        let url = Url::parse(s)?;
        Task::try_from(&url)
    }
}

/// Extracts the final `/`-delimited segment of a string.
fn last_segment_of(s: &str) -> (r: String)
    ensures
        r@ == last_segment(s@),
{
    let n: usize = s.unicode_len();
    let mut i: usize = n;
    while i > 0 && s.get_char(i - 1) != '/'
        invariant
            0 <= i <= n,
            n == s@.len(),
            forall|j: int| i <= j < n ==> s@[j] != '/',
        decreases i,
    {
        i = i - 1;
    }
    proof {
        lemma_last_segment_is_suffix(s@, i as int);
    }
    String::from_str(s.substring_char(i, n))
}

/// Whether a character is a decimal digit.
pub open spec fn is_dec_digit(c: char) -> bool {
    48 <= c as int <= 57
}

/// The value of a decimal digit character.
pub open spec fn dec_digit_val(c: char) -> nat {
    (c as int - 48) as nat
}

/// Whether every character of a string is a decimal digit.
pub open spec fn all_dec_digits(s: Seq<char>) -> bool {
    forall|i: int| 0 <= i < s.len() ==> is_dec_digit(s[i])
}

/// The value of a string of decimal digits, most significant first.
pub open spec fn dec_value(s: Seq<char>) -> nat
    decreases s.len(),
{
    if s.len() == 0 {
        0
    } else {
        dec_value(s.drop_last()) * 10 + dec_digit_val(s.last())
    }
}

/// The digit part of a number string: integer parsing accepts one optional
/// leading `+` before the digits.
pub open spec fn digits_of(s: Seq<char>) -> Seq<char> {
    if s.len() > 0 && s[0] == '+' {
        s.subrange(1, s.len() as int)
    } else {
        s
    }
}

/// What the size probe makes of a `Content-Length` header value: the value
/// of the decimal number it holds, if it holds one that fits in a `u64`,
/// and nothing otherwise.
pub open spec fn header_content_length(s: Seq<char>) -> Option<u64> {
    let d = digits_of(s);
    if d.len() > 0 && all_dec_digits(d) && dec_value(d) <= u64::MAX {
        Some(dec_value(d) as u64)
    } else {
        None
    }
}

/// The value of a digit string is no smaller than the value of any of its
/// prefixes: appending digits never shrinks the number.
proof fn lemma_dec_value_prefix_le(s: Seq<char>, j: int)
    requires
        0 <= j <= s.len(),
    ensures
        dec_value(s.subrange(0, j)) <= dec_value(s),
    decreases s.len() - j,
{
    if j == s.len() {
        assert(s.subrange(0, j) =~= s);
    } else {
        assert(s.subrange(0, j + 1).drop_last() =~= s.subrange(0, j));
        assert(dec_value(s.subrange(0, j)) <= dec_value(s.subrange(0, j + 1)));
        lemma_dec_value_prefix_le(s, j + 1);
    }
}

/// Parses an HTTP `Content-Length` header value, as handed over from the
/// response of a size probe: `Some` exactly when the value is a decimal
/// number (with an optional leading `+`) that fits in a `u64`, and `None`
/// for a missing header, reflecting that the probe treats every failure as
/// an absent size.
pub fn parse_content_length(header: Option<&str>) -> (r: Option<u64>)
    ensures
        r == (match header {
            Some(h) => header_content_length(h@),
            None => None::<u64>,
        }),
{
    match header {
        Some(h) => parse_header_value(h),
        None => None,
    }
}

/// Parses the decimal number a `Content-Length` header value holds.
fn parse_header_value(s: &str) -> (r: Option<u64>)
    ensures
        r == header_content_length(s@),
{
    let n: usize = s.unicode_len();
    let start: usize = if n > 0 && s.get_char(0) == '+' {
        1
    } else {
        0
    };
    let ghost d = digits_of(s@);
    proof {
        assert(d =~= s@.subrange(start as int, n as int));
    }
    if start == n {
        return None;
    }
    let mut val: u64 = 0;
    let mut i: usize = start;
    while i < n
        invariant
            start <= i <= n,
            n == s@.len(),
            d == s@.subrange(start as int, n as int),
            d == digits_of(s@),
            forall|j: int| start <= j < i ==> is_dec_digit(s@[j]),
            val == dec_value(s@.subrange(start as int, i as int)),
        decreases n - i,
    {
        let c = s.get_char(i);
        let cv: u32 = c as u32;
        if cv < 48 || cv > 57 {
            proof {
                assert(!is_dec_digit(d[i - start]));
            }
            return None;
        }
        let dv: u64 = (cv - 48) as u64;
        proof {
            assert(s@.subrange(start as int, i + 1).drop_last() =~= s@.subrange(
                start as int,
                i as int,
            ));
        }
        let next = match val.checked_mul(10) {
            Some(v) => v.checked_add(dv),
            None => None,
        };
        match next {
            Some(v) => {
                val = v;
            },
            None => {
                proof {
                    assert(dec_value(s@.subrange(start as int, i + 1)) > u64::MAX);
                    if all_dec_digits(d) {
                        assert(s@.subrange(start as int, i + 1) =~= d.subrange(
                            0,
                            i + 1 - start,
                        ));
                        lemma_dec_value_prefix_le(d, i + 1 - start);
                    }
                }
                return None;
            },
        }
        i = i + 1;
    }
    Some(val)
}

} // verus!
