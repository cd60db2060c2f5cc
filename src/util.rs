//! Text facts of an opened file: its byte encoding, its line endings and the
//! indentation of its lines.
use vstd::prelude::*;

use crate::strs::chars_of;

verus! {

/// How many bytes of a file the encoding detector sees, and how many
/// characters of decoded text decide the line ending.
pub const SAMPLE_LEN: usize = 1000;

/// The name of the encoding that chardetng guesses for `sample`, fed with
/// `last` telling whether the sample is the whole file.
pub uninterp spec fn detected_encoding(sample: Seq<u8>, last: bool) -> Seq<char>;

/// The text that encoding_rs decodes from `bytes` with the encoding named
/// `encoding`, or `None` on a malformed sequence or an unknown name.
pub uninterp spec fn decoded_text(encoding: Seq<char>, bytes: Seq<u8>) -> Option<Seq<char>>;

/// The bytes that encoding_rs writes for `text` in the encoding named
/// `encoding`, or `None` for an unknown name.
pub uninterp spec fn encoded_text(encoding: Seq<char>, text: Seq<char>) -> Option<Seq<u8>>;

/// Whether `char::is_whitespace` holds of `c`.
pub uninterp spec fn white_space(c: char) -> bool;

/// Relies on chardetng's `EncodingDetector` (`new`, one `feed`, then
/// `guess(None, true)`) and on encoding_rs's `Encoding::name`: the guess is a
/// function of the bytes fed and of the `last` flag.
#[verifier::external_body]
fn detect_encoding(sample: &[u8], last: bool) -> (r: String)
    ensures
        r@ == detected_encoding(sample@, last),
{
    let mut detector = chardetng::EncodingDetector::new();
    detector.feed(sample, last);
    detector.guess(None, true).name().to_string()
}

/// Relies on encoding_rs: `Encoding::for_label` finds the encoding by name and
/// `decode_without_bom_handling_and_without_replacement` decodes the whole
/// input, or gives `None` on a malformed sequence.
#[verifier::external_body]
fn decode_bytes(encoding: &str, bytes: &[u8]) -> (r: Option<String>)
    ensures
        r matches Some(t) ==> decoded_text(encoding@, bytes@) == Some(t@),
        r is None ==> decoded_text(encoding@, bytes@) is None,
{
    let enc = encoding_rs::Encoding::for_label(encoding.as_bytes())?;
    enc.decode_without_bom_handling_and_without_replacement(bytes).map(|t| t.into_owned())
}

/// Relies on encoding_rs: `Encoding::for_label` finds the encoding by name and
/// `Encoding::encode` writes the text in it.
#[verifier::external_body]
fn encode_str(encoding: &str, text: &str) -> (r: Option<Vec<u8>>)
    ensures
        r matches Some(b) ==> encoded_text(encoding@, text@) == Some(b@),
        r is None ==> encoded_text(encoding@, text@) is None,
{
    let enc = encoding_rs::Encoding::for_label(encoding.as_bytes())?;
    Some(enc.encode(text).0.into_owned())
}

/// The first `n` characters of a text, or all of it when shorter.
fn leading_chars(text: &str, n: usize) -> (r: String)
    ensures
        r@ == text@.subrange(0, if n < text@.len() { n as int } else { text@.len() as int }),
{
    let len = text.unicode_len();
    let to = if n < len { n } else { len };
    String::from_str(text.substring_char(0, to))
}

/// Relies on `char::is_whitespace`.
#[verifier::external_body]
fn is_white_space(c: char) -> (r: bool)
    ensures
        r == white_space(c),
{
    c.is_whitespace()
}

/// The first `SAMPLE_LEN` items of a sequence, or all of it when shorter.
pub open spec fn sample_of<A>(s: Seq<A>) -> Seq<A> {
    if s.len() <= SAMPLE_LEN {
        s
    } else {
        s.subrange(0, SAMPLE_LEN as int)
    }
}

/// The encoding guessed for a whole file: the detector sees the first
/// `SAMPLE_LEN` bytes and is told whether they are the whole file.
pub open spec fn guessed_encoding(bytes: Seq<u8>) -> Seq<char> {
    detected_encoding(sample_of(bytes), bytes.len() <= SAMPLE_LEN)
}

/// Guesses the encoding of a file's bytes; the result is the encoding's name.
pub fn guess_encoding(text: &[u8]) -> (r: String)
    ensures
        r@ == guessed_encoding(text@),
{
    let len = text.len();
    let to: usize = if len < SAMPLE_LEN { len } else { SAMPLE_LEN };
    let mut sample: Vec<u8> = Vec::new();
    let mut i: usize = 0;
    while i < to
        invariant
            len == text@.len(),
            to <= len,
            to == (if len < SAMPLE_LEN { len } else { SAMPLE_LEN }),
            i <= to,
            sample@ == text@.subrange(0, i as int),
        decreases to - i,
    {
        sample.push(text[i]);
        i = i + 1;
        assert(sample@ =~= text@.subrange(0, i as int));
    }
    assert(sample@ =~= sample_of(text@));
    detect_encoding(sample.as_slice(), to == len)
}

/// Decodes `bytes` with the encoding named `encoding`.
pub fn decode(encoding: &str, bytes: &[u8]) -> (r: Option<String>)
    ensures
        r matches Some(t) ==> decoded_text(encoding@, bytes@) == Some(t@),
        r is None ==> decoded_text(encoding@, bytes@) is None,
{
    decode_bytes(encoding, bytes)
}

/// Encodes `text` in the encoding named `encoding`.
pub fn encode(encoding: &str, text: &str) -> (r: Option<Vec<u8>>)
    ensures
        r matches Some(b) ==> encoded_text(encoding@, text@) == Some(b@),
        r is None ==> encoded_text(encoding@, text@) is None,
{
    encode_str(encoding, text)
}

/// The line ending style of a file.
#[derive(Debug, Clone, Copy, PartialEq, Eq, Structural)]
pub enum LineEnding {
    Unknown,
    Crlf,
    Lf,
}

impl LineEnding {
    /// The label shown for the style.
    pub open spec fn label(self) -> Seq<char> {
        match self {
            LineEnding::Unknown => "UNKNOWN"@,
            LineEnding::Crlf => "CRLF"@,
            LineEnding::Lf => "LF"@,
        }
    }

    pub fn as_str(&self) -> (r: &'static str)
        ensures
            r@ == self.label(),
    {
        match self {
            LineEnding::Unknown => "UNKNOWN",
            LineEnding::Crlf => "CRLF",
            LineEnding::Lf => "LF",
        }
    }
}

pub open spec fn has_crlf(s: Seq<char>) -> bool {
    exists|i: int| 0 <= i && i + 1 < s.len() && #[trigger] s[i] == '\r' && s[i + 1] == '\n'
}

pub open spec fn has_lf(s: Seq<char>) -> bool {
    exists|i: int| 0 <= i < s.len() && s[i] == '\n'
}

/// The style that a text sample shows: CRLF if `\r\n` occurs anywhere,
/// else LF if a `\n` occurs, else unknown.
pub open spec fn line_ending_of(s: Seq<char>) -> LineEnding {
    if has_crlf(s) {
        LineEnding::Crlf
    } else if has_lf(s) {
        LineEnding::Lf
    } else {
        LineEnding::Unknown
    }
}

/// Guesses the line ending of a text from its first `SAMPLE_LEN` characters.
pub fn guess_line_ending(text: &str) -> (r: LineEnding)
    ensures
        r == line_ending_of(sample_of(text@)),
{
    let head = leading_chars(text, SAMPLE_LEN);
    let cs = chars_of(head.as_str());
    assert(cs@ =~= sample_of(text@));
    let n = cs.len();
    let mut lf = false;
    let mut i: usize = 0;
    while i < n
        invariant
            n == cs@.len(),
            cs@ == sample_of(text@),
            i <= n,
            forall|j: int| 0 <= j < i && j + 1 < n ==> !(#[trigger] cs@[j] == '\r' && cs@[j + 1] == '\n'),
            lf == (exists|j: int| 0 <= j < i && cs@[j] == '\n'),
        decreases n - i,
    {
        if cs[i] == '\n' {
            lf = true;
        }
        if i + 1 < n && cs[i] == '\r' && cs[i + 1] == '\n' {
            assert(has_crlf(cs@));
            return LineEnding::Crlf;
        }
        i = i + 1;
    }
    if lf {
        LineEnding::Lf
    } else {
        LineEnding::Unknown
    }
}

/// The indentation width of the leading blanks of a line: a space counts
/// one, a tab four.
pub open spec fn indent_width(s: Seq<char>) -> nat
    decreases s.len(),
{
    if s.len() == 0 {
        0
    } else if s[0] == ' ' {
        1 + indent_width(s.drop_first())
    } else if s[0] == '\t' {
        4 + indent_width(s.drop_first())
    } else {
        0
    }
}

proof fn lemma_indent_width_bound(s: Seq<char>)
    ensures
        indent_width(s) <= 4 * s.len(),
    decreases s.len(),
{
    if s.len() > 0 {
        lemma_indent_width_bound(s.drop_first());
    }
}

/// `indent_width` read from the front up to `i`, where every character
/// before `i` is a blank.
proof fn lemma_indent_width_split(s: Seq<char>, i: int)
    requires
        0 <= i <= s.len(),
        forall|j: int| 0 <= j < i ==> s[j] == ' ' || s[j] == '\t',
    ensures
        indent_width(s) == blank_width(s.subrange(0, i)) + indent_width(s.subrange(i, s.len() as int)),
    decreases i,
{
    if i > 0 {
        lemma_indent_width_split(s.drop_first(), i - 1);
        assert(s.drop_first().subrange(0, i - 1) =~= s.subrange(0, i).drop_first());
        assert(s.drop_first().subrange(i - 1, s.len() - 1) =~= s.subrange(i, s.len() as int));
    } else {
        assert(s.subrange(0, i).len() == 0);
        assert(s.subrange(i, s.len() as int) =~= s);
    }
}

/// The width of a run of blanks.
pub open spec fn blank_width(s: Seq<char>) -> nat
    decreases s.len(),
{
    if s.len() == 0 {
        0
    } else {
        (if s[0] == '\t' { 4nat } else { 1nat }) + blank_width(s.drop_first())
    }
}

proof fn lemma_blank_width_push(s: Seq<char>, c: char)
    ensures
        blank_width(s.push(c)) == blank_width(s) + (if c == '\t' { 4nat } else { 1nat }),
    decreases s.len(),
{
    if s.len() > 0 {
        lemma_blank_width_push(s.drop_first(), c);
        assert(s.push(c).drop_first() =~= s.drop_first().push(c));
        assert(s.push(c)[0] == s[0]);
    } else {
        assert(s.push(c).drop_first() =~= Seq::<char>::empty());
        assert(s.push(c)[0] == c);
        assert(blank_width(Seq::<char>::empty()) == 0);
        assert(blank_width(s) == 0);
    }
}

/// The indentation width of a line's leading spaces and tabs.
pub fn calc_current_line_indent_space_count(cur_line: &str) -> (r: usize)
    requires
        4 * cur_line@.len() <= usize::MAX,
    ensures
        r == indent_width(cur_line@),
{
    let cs = chars_of(cur_line);
    let n = cs.len();
    let mut count: usize = 0;
    let mut i: usize = 0;
    while i < n && (cs[i] == ' ' || cs[i] == '\t')
        invariant
            n == cs@.len(),
            cs@ == cur_line@,
            4 * n <= usize::MAX,
            i <= n,
            forall|j: int| 0 <= j < i ==> cs@[j] == ' ' || cs@[j] == '\t',
            count == blank_width(cs@.subrange(0, i as int)),
            count <= 4 * i,
        decreases n - i,
    {
        let c = cs[i];
        proof {
            lemma_blank_width_push(cs@.subrange(0, i as int), c);
            assert(cs@.subrange(0, i as int).push(c) =~= cs@.subrange(0, i + 1));
        }
        if c == ' ' {
            count = count + 1;
        } else {
            count = count + 4;
        }
        i = i + 1;
    }
    proof {
        lemma_indent_width_split(cs@, i as int);
        let rest = cs@.subrange(i as int, n as int);
        assert(rest.len() == 0 || (rest[0] != ' ' && rest[0] != '\t'));
    }
    count
}

/// The index just past the last character of `s` that is not white space,
/// or 0 when there is none.
pub open spec fn trimmed_end(s: Seq<char>) -> int
    decreases s.len(),
{
    if s.len() == 0 {
        0
    } else if white_space(s.last()) {
        trimmed_end(s.drop_last())
    } else {
        s.len() as int
    }
}

/// Whether a line, without its trailing white space, ends by opening a
/// block: `{`, `[` or `(`.
pub open spec fn opens_block(s: Seq<char>) -> bool {
    let e = trimmed_end(s);
    e > 0 && (s[e - 1] == '{' || s[e - 1] == '[' || s[e - 1] == '(')
}

proof fn lemma_trimmed_end_range(s: Seq<char>)
    ensures
        0 <= trimmed_end(s) <= s.len(),
    decreases s.len(),
{
    if s.len() > 0 && white_space(s.last()) {
        lemma_trimmed_end_range(s.drop_last());
    }
}

/// The indentation of the line that follows `cur_line`: the same as
/// `cur_line`, four more when `cur_line` opens a block.
pub fn calc_next_line_indent_space_count(cur_line: &str) -> (r: usize)
    requires
        4 * cur_line@.len() + 4 <= usize::MAX,
    ensures
        r == indent_width(cur_line@) + (if opens_block(cur_line@) { 4int } else { 0int }),
{
    let space_count = calc_current_line_indent_space_count(cur_line);
    proof {
        lemma_indent_width_bound(cur_line@);
    }
    let cs = chars_of(cur_line);
    let mut e: usize = cs.len();
    assert(cs@.subrange(0, e as int) =~= cs@);
    while e > 0 && is_white_space(cs[e - 1])
        invariant
            e <= cs@.len(),
            cs@ == cur_line@,
            trimmed_end(cs@) == trimmed_end(cs@.subrange(0, e as int)),
        decreases e,
    {
        proof {
            let t = cs@.subrange(0, e as int);
            assert(t.drop_last() =~= cs@.subrange(0, e - 1));
        }
        e = e - 1;
    }
    proof {
        let t = cs@.subrange(0, e as int);
        assert(cs@.subrange(0, cs@.len() as int) =~= cs@);
        if e > 0 {
            assert(t.last() == cs@[e - 1]);
        }
        lemma_trimmed_end_range(cs@);
    }
    if e > 0 && (cs[e - 1] == '{' || cs[e - 1] == '[' || cs[e - 1] == '(') {
        space_count + 4
    } else {
        space_count
    }
}

} // verus!
