//! The requests of the C interface, and the defaults that fill what they leave out.
use vstd::prelude::*;

use crate::extractor::OutputFormat;
use crate::importer::{BuildOptions, DistanceMetric, InputFormat};

verus! {

broadcast use vstd::string::axiom_spec_iter;

/// Whether `c` has the Unicode `White_Space` property: the controls U+0009 to U+000D,
/// the space, U+0085, the no-break space, U+1680, U+2000 to U+200A, the line and paragraph
/// separators, U+202F, U+205F and the ideographic space U+3000.
pub open spec fn is_whitespace_char(c: char) -> bool {
    let u = c as int;
    ||| 0x9 <= u <= 0xD
    ||| u == 0x20
    ||| u == 0x85
    ||| u == 0xA0
    ||| u == 0x1680
    ||| 0x2000 <= u <= 0x200A
    ||| u == 0x2028
    ||| u == 0x2029
    ||| u == 0x202F
    ||| u == 0x205F
    ||| u == 0x3000
}

/// `char::is_whitespace`: whether the character has the Unicode `White_Space` property,
/// the set that [`is_whitespace_char`] lists.
#[verifier::external_body]
fn char_is_whitespace(c: char) -> (b: bool)
    ensures
        b == is_whitespace_char(c),
{
    c.is_whitespace()
}

/// Whether `s` holds nothing but white space, so that trimming it leaves it empty.
pub open spec fn is_blank(s: Seq<char>) -> bool {
    forall|i: int| 0 <= i < s.len() ==> is_whitespace_char(#[trigger] s[i])
}

/// Whether `s` holds nothing but white space.
pub fn blank(s: &str) -> (b: bool)
    ensures
        b == is_blank(s@),
{
    for c in iter: s.chars()
        invariant
            iter.seq() == s@,
            forall|i: int| 0 <= i < iter.index() ==> is_whitespace_char(#[trigger] s@[i]),
    {
        if !char_is_whitespace(c) {
            return false;
        }
    }
    true
}

/// `s` with every NUL character written as the two characters `\0`.
pub open spec fn escape_nuls(s: Seq<char>) -> Seq<char>
    decreases s.len(),
{
    if s.len() == 0 {
        Seq::empty()
    } else {
        escape_nuls(s.drop_last()) + if s.last() == '\0' {
            seq!['\\', '0']
        } else {
            seq![s.last()]
        }
    }
}

/// The text kept as the last error of the C interface for the error message `message`:
/// `unknown error` for an empty message, otherwise the message with its NULs escaped, so
/// that it holds none.
pub open spec fn last_error_text_of(message: Seq<char>) -> Seq<char> {
    if message.len() == 0 {
        "unknown error"@
    } else {
        escape_nuls(message)
    }
}

/// `char::to_string`: the one-character string of `c`.
#[verifier::external_body]
fn char_to_string(c: char) -> (s: String)
    ensures
        s@ == seq![c],
{
    c.to_string()
}

/// The text kept as the last error for `message`; it holds no NUL.
pub fn last_error_text(message: &str) -> (r: String)
    ensures
        r@ == last_error_text_of(message@),
        forall|i: int| 0 <= i < r@.len() ==> r@[i] != '\0',
{
    let mut out = "".to_owned();
    proof {
        reveal_strlit("");
        reveal_strlit("\\0");
        reveal_strlit("unknown error");
    }
    for c in iter: message.chars()
        invariant
            iter.seq() == message@,
            "\\0"@ == seq!['\\', '0'],
            out@ == escape_nuls(message@.take(iter.index())),
            forall|i: int| 0 <= i < out@.len() ==> out@[i] != '\0',
    {
        let ghost k = iter.index();
        if c == '\0' {
            out.append("\\0");
        } else {
            let one = char_to_string(c);
            out.append(one.as_str());
        }
        assert(message@.take(k + 1).drop_last() =~= message@.take(k));
    }
    assert(message@.take(message@.len() as int) =~= message@);
    if message.is_empty() {
        return "unknown error".to_owned();
    }
    out
}

/// A required path that a request leaves blank.
#[derive(Debug, Clone, Copy, PartialEq, Eq, Structural)]
pub enum MissingField {
    IndexDir,
    InputPath,
    OutputPath,
}

/// A request to export an index to a columnar file.
#[derive(Debug, Clone)]
pub struct ExtractRequest {
    pub index_dir: String,
    pub output_path: String,
    pub output_format: Option<OutputFormat>,
    pub metadata_path: Option<String>,
    pub include_deleted: Option<bool>,
    pub batch_size: Option<usize>,
}

/// What an export request asks for once its defaults are filled in.
#[derive(Debug, Clone, Copy, PartialEq, Eq)]
pub struct ExtractSettings {
    pub output_format: OutputFormat,
    pub include_deleted: bool,
    pub batch_size: usize,
}

impl ExtractRequest {
    /// The first required path that is blank: `index_dir`, then `output_path`.
    pub fn missing_field(&self) -> (r: Option<MissingField>)
        ensures
            r == if is_blank(self.index_dir@) {
                Some(MissingField::IndexDir)
            } else if is_blank(self.output_path@) {
                Some(MissingField::OutputPath)
            } else {
                None::<MissingField>
            },
    {
        if blank(self.index_dir.as_str()) {
            return Some(MissingField::IndexDir);
        }
        if blank(self.output_path.as_str()) {
            return Some(MissingField::OutputPath);
        }
        None
    }

    /// Parquet, without deleted records, in batches of 1024, where the request says nothing.
    pub fn settings(&self) -> (s: ExtractSettings)
        ensures
            s.output_format == match self.output_format {
                Some(f) => f,
                None => OutputFormat::Parquet,
            },
            s.include_deleted == match self.include_deleted {
                Some(b) => b,
                None => false,
            },
            s.batch_size == match self.batch_size {
                Some(n) => n,
                None => 1024,
            },
    {
        ExtractSettings {
            output_format: match self.output_format {
                Some(f) => f,
                None => OutputFormat::default(),
            },
            include_deleted: match self.include_deleted {
                Some(b) => b,
                None => false,
            },
            batch_size: match self.batch_size {
                Some(n) => n,
                None => 1024,
            },
        }
    }
}

/// A request to build an index from a columnar file.
#[derive(Debug, Clone)]
pub struct BuildRequest {
    pub input_path: String,
    pub output_path: String,
    pub input_format: Option<InputFormat>,
    pub metric: Option<DistanceMetric>,
    pub include_deleted: Option<bool>,
    pub m: Option<usize>,
    pub m0: Option<usize>,
    pub ef_construction: Option<usize>,
    pub batch_size: Option<usize>,
    pub capacity: Option<usize>,
    pub seed: Option<u64>,
}

/// `value`, or `default` where it is absent.
pub open spec fn or_default<T>(value: Option<T>, default: T) -> T {
    match value {
        Some(v) => v,
        None => default,
    }
}

impl BuildRequest {
    /// The first required path that is blank: `input_path`, then `output_path`.
    pub fn missing_field(&self) -> (r: Option<MissingField>)
        ensures
            r == if is_blank(self.input_path@) {
                Some(MissingField::InputPath)
            } else if is_blank(self.output_path@) {
                Some(MissingField::OutputPath)
            } else {
                None::<MissingField>
            },
    {
        if blank(self.input_path.as_str()) {
            return Some(MissingField::InputPath);
        }
        if blank(self.output_path.as_str()) {
            return Some(MissingField::OutputPath);
        }
        None
    }

    /// The build options the request asks for: Parquet, Euclidean, no deleted rows, `m` 16,
    /// `ef_construction` 200 and batches of 1024 where it says nothing; `m0`, `capacity`
    /// and `seed` as given.
    pub fn options(&self) -> (o: BuildOptions)
        ensures
            o == (BuildOptions {
                include_deleted: or_default(self.include_deleted, false),
                input_format: or_default(self.input_format, InputFormat::Parquet),
                metric: or_default(self.metric, DistanceMetric::Euclidean),
                m: or_default(self.m, 16),
                m0: self.m0,
                ef_construction: or_default(self.ef_construction, 200),
                batch_size: or_default(self.batch_size, 1024),
                capacity: self.capacity,
                seed: self.seed,
            }),
    {
        BuildOptions {
            include_deleted: match self.include_deleted {
                Some(b) => b,
                None => false,
            },
            input_format: match self.input_format {
                Some(f) => f,
                None => InputFormat::default(),
            },
            metric: match self.metric {
                Some(m) => m,
                None => DistanceMetric::default(),
            },
            m: match self.m {
                Some(m) => m,
                None => 16,
            },
            m0: self.m0,
            ef_construction: match self.ef_construction {
                Some(ef) => ef,
                None => 200,
            },
            batch_size: match self.batch_size {
                Some(n) => n,
                None => 1024,
            },
            capacity: self.capacity,
            seed: self.seed,
        }
    }
}

} // verus!
