//! Decoded snippets, the raw candidates they come from, and the decoder
//! between the two.
use vstd::prelude::*;

use crate::decimal::{decimal_of, parse_decimal};

verus! {

/// A value stored under one key of a candidate's payload. Only text values
/// are of use here; every other kind of value is `Other`.
pub enum FieldValue {
    Text(String),
    Other,
}

/// One key of a candidate's payload with its value.
pub struct PayloadEntry {
    pub key: String,
    pub value: FieldValue,
}

/// A candidate as the vector index returns it: the similarity score, the
/// stored embedding, if the index sent one back in dense form, and the
/// payload. Floating-point values are held as their IEEE-754 bit patterns.
pub struct RawCandidate {
    pub score_bits: u32,
    pub vector: Option<Vec<u32>>,
    pub payload: Vec<PayloadEntry>,
}

/// A decoded search result. The score and the embedding are held as the
/// IEEE-754 bit patterns of the index's single-precision values.
pub struct Snippet {
    pub lang: String,
    pub repo_name: String,
    pub repo_ref: String,
    pub relative_path: String,
    pub text: String,
    pub start_line: usize,
    pub end_line: usize,
    pub start_byte: usize,
    pub end_byte: usize,
    pub score_bits: u32,
    pub embedding: Vec<u32>,
}

/// The content of a snippet, with its text as character sequences.
pub ghost struct SnippetView {
    pub lang: Seq<char>,
    pub repo_name: Seq<char>,
    pub repo_ref: Seq<char>,
    pub relative_path: Seq<char>,
    pub text: Seq<char>,
    pub start_line: usize,
    pub end_line: usize,
    pub start_byte: usize,
    pub end_byte: usize,
    pub score_bits: u32,
    pub embedding: Seq<u32>,
}

impl View for Snippet {
    type V = SnippetView;

    open spec fn view(&self) -> SnippetView {
        SnippetView {
            lang: self.lang@,
            repo_name: self.repo_name@,
            repo_ref: self.repo_ref@,
            relative_path: self.relative_path@,
            text: self.text@,
            start_line: self.start_line,
            end_line: self.end_line,
            start_byte: self.start_byte,
            end_byte: self.end_byte,
            score_bits: self.score_bits,
            embedding: self.embedding@,
        }
    }
}

/// The payload fields that every candidate must carry.
#[derive(Clone, Copy, PartialEq, Eq, Structural, Debug)]
pub enum Field {
    Lang,
    RepoName,
    RepoRef,
    RelativePath,
    Text,
    StartLine,
    EndLine,
    StartByte,
    EndByte,
}

/// Why a candidate could not be decoded.
#[derive(Clone, Copy, PartialEq, Eq, Structural, Debug)]
pub enum DecodeError {
    /// The candidate carries no embedding in dense form.
    MissingVector,
    /// The payload has no value under the field's key.
    MissingField(Field),
    /// The field's value is not text.
    NotText(Field),
    /// The field holds a line or byte number, and its text is not a decimal
    /// number that fits in a `usize`.
    NotNumeric(Field),
}

/// The payload key under which a field is stored.
pub open spec fn key_of(f: Field) -> Seq<char> {
    match f {
        Field::Lang => "lang"@,
        Field::RepoName => "repo_name"@,
        Field::RepoRef => "repo_ref"@,
        Field::RelativePath => "relative_path"@,
        Field::Text => "snippet"@,
        Field::StartLine => "start_line"@,
        Field::EndLine => "end_line"@,
        Field::StartByte => "start_byte"@,
        Field::EndByte => "end_byte"@,
    }
}

/// The field holds a line or a byte number, stored as decimal text.
pub open spec fn is_numeric(f: Field) -> bool {
    match f {
        Field::StartLine | Field::EndLine | Field::StartByte | Field::EndByte => true,
        _ => false,
    }
}

impl Field {
    /// The payload key under which this field is stored.
    pub fn key(&self) -> (r: &'static str)
        ensures
            r@ == key_of(*self),
    {
        match self {
            Field::Lang => "lang",
            Field::RepoName => "repo_name",
            Field::RepoRef => "repo_ref",
            Field::RelativePath => "relative_path",
            Field::Text => "snippet",
            Field::StartLine => "start_line",
            Field::EndLine => "end_line",
            Field::StartByte => "start_byte",
            Field::EndByte => "end_byte",
        }
    }
}

/// The value stored under `key`: that of the first entry with this key.
pub open spec fn lookup(p: Seq<PayloadEntry>, key: Seq<char>) -> Option<FieldValue>
    decreases p.len(),
{
    if p.len() == 0 {
        None
    } else if p[0].key@ == key {
        Some(p[0].value)
    } else {
        lookup(p.drop_first(), key)
    }
}

/// What is wrong with a field of the payload, if anything.
pub open spec fn field_error(p: Seq<PayloadEntry>, f: Field) -> Option<DecodeError> {
    match lookup(p, key_of(f)) {
        None => Some(DecodeError::MissingField(f)),
        Some(FieldValue::Other) => Some(DecodeError::NotText(f)),
        Some(FieldValue::Text(s)) => if is_numeric(f) && decimal_of(s@) is None {
            Some(DecodeError::NotNumeric(f))
        } else {
            None
        },
    }
}

/// The text of a field whose value is text.
pub open spec fn text_of(p: Seq<PayloadEntry>, f: Field) -> Seq<char> {
    match lookup(p, key_of(f)) {
        Some(FieldValue::Text(s)) => s@,
        _ => Seq::empty(),
    }
}

/// The number that a numeric field holds.
pub open spec fn number_of(p: Seq<PayloadEntry>, f: Field) -> usize {
    match decimal_of(text_of(p, f)) {
        Some(n) => n,
        None => 0,
    }
}

/// The first failure met when the candidate is decoded: the embedding is
/// examined first, then the fields in their declared order.
pub open spec fn decode_error(c: RawCandidate) -> Option<DecodeError> {
    let p = c.payload@;
    if c.vector is None {
        Some(DecodeError::MissingVector)
    } else if field_error(p, Field::Lang) is Some {
        field_error(p, Field::Lang)
    } else if field_error(p, Field::RepoName) is Some {
        field_error(p, Field::RepoName)
    } else if field_error(p, Field::RepoRef) is Some {
        field_error(p, Field::RepoRef)
    } else if field_error(p, Field::RelativePath) is Some {
        field_error(p, Field::RelativePath)
    } else if field_error(p, Field::Text) is Some {
        field_error(p, Field::Text)
    } else if field_error(p, Field::StartLine) is Some {
        field_error(p, Field::StartLine)
    } else if field_error(p, Field::EndLine) is Some {
        field_error(p, Field::EndLine)
    } else if field_error(p, Field::StartByte) is Some {
        field_error(p, Field::StartByte)
    } else {
        field_error(p, Field::EndByte)
    }
}

/// The snippet that a candidate without a decode error stands for.
pub open spec fn decoded(c: RawCandidate) -> SnippetView {
    let p = c.payload@;
    SnippetView {
        lang: text_of(p, Field::Lang),
        repo_name: text_of(p, Field::RepoName),
        repo_ref: text_of(p, Field::RepoRef),
        relative_path: text_of(p, Field::RelativePath),
        text: text_of(p, Field::Text),
        start_line: number_of(p, Field::StartLine),
        end_line: number_of(p, Field::EndLine),
        start_byte: number_of(p, Field::StartByte),
        end_byte: number_of(p, Field::EndByte),
        score_bits: c.score_bits,
        embedding: match c.vector {
            Some(v) => v@,
            None => Seq::empty(),
        },
    }
}

/// Finds the value stored under `key`.
fn find_value<'a>(payload: &'a Vec<PayloadEntry>, key: &str) -> (r: Option<&'a FieldValue>)
    ensures
        match r {
            Some(v) => lookup(payload@, key@) == Some(*v),
            None => lookup(payload@, key@) is None,
        },
{
    let wanted = key.to_owned();
    let mut i: usize = 0;
    assert(payload@.subrange(0, payload@.len() as int) =~= payload@);
    while i < payload.len()
        invariant
            i <= payload@.len(),
            wanted@ == key@,
            lookup(payload@, key@) == lookup(payload@.subrange(i as int, payload@.len() as int), key@),
        decreases payload@.len() - i,
    {
        let ghost rest = payload@.subrange(i as int, payload@.len() as int);
        assert(rest.drop_first() =~= payload@.subrange(i + 1, payload@.len() as int));
        if payload[i].key == wanted {
            return Some(&payload[i].value);
        }
        i = i + 1;
    }
    None
}

/// Reads a field that must hold text.
fn text_field(payload: &Vec<PayloadEntry>, f: Field) -> (r: Result<String, DecodeError>)
    ensures
        match r {
            Ok(s) => lookup(payload@, key_of(f)) == Some(FieldValue::Text(s)),
            Err(e) => e == match lookup(payload@, key_of(f)) {
                None => DecodeError::MissingField(f),
                _ => DecodeError::NotText(f),
            } && !(lookup(payload@, key_of(f)) matches Some(FieldValue::Text(_))),
        },
{
    match find_value(payload, f.key()) {
        None => Err(DecodeError::MissingField(f)),
        Some(FieldValue::Text(s)) => Ok(s.clone()),
        Some(FieldValue::Other) => Err(DecodeError::NotText(f)),
    }
}

/// Reads a field that must hold a decimal number.
fn number_field(payload: &Vec<PayloadEntry>, f: Field) -> (r: Result<usize, DecodeError>)
    requires
        is_numeric(f),
    ensures
        match r {
            Ok(n) => field_error(payload@, f) is None && n == number_of(payload@, f),
            Err(e) => field_error(payload@, f) == Some(e),
        },
{
    match text_field(payload, f) {
        Err(e) => Err(e),
        Ok(s) => match parse_decimal(s.as_str()) {
            None => Err(DecodeError::NotNumeric(f)),
            Some(n) => Ok(n),
        },
    }
}

/// Decodes one candidate into a snippet. Every required field must be present
/// and hold text, the line and byte fields must hold decimal numbers, and the
/// embedding must be present; otherwise the first failure is reported.
pub fn decode(c: RawCandidate) -> (r: Result<Snippet, DecodeError>)
    ensures
        match r {
            Ok(s) => decode_error(c) is None && s@ == decoded(c),
            Err(e) => decode_error(c) == Some(e),
        },
{
    let RawCandidate { score_bits, vector, payload } = c;
    let embedding = match vector {
        Some(v) => v,
        None => {
            return Err(DecodeError::MissingVector);
        },
    };
    let lang = match text_field(&payload, Field::Lang) {
        Ok(s) => s,
        Err(e) => {
            return Err(e);
        },
    };
    let repo_name = match text_field(&payload, Field::RepoName) {
        Ok(s) => s,
        Err(e) => {
            return Err(e);
        },
    };
    let repo_ref = match text_field(&payload, Field::RepoRef) {
        Ok(s) => s,
        Err(e) => {
            return Err(e);
        },
    };
    let relative_path = match text_field(&payload, Field::RelativePath) {
        Ok(s) => s,
        Err(e) => {
            return Err(e);
        },
    };
    let text = match text_field(&payload, Field::Text) {
        Ok(s) => s,
        Err(e) => {
            return Err(e);
        },
    };
    let start_line = match number_field(&payload, Field::StartLine) {
        Ok(n) => n,
        Err(e) => {
            return Err(e);
        },
    };
    let end_line = match number_field(&payload, Field::EndLine) {
        Ok(n) => n,
        Err(e) => {
            return Err(e);
        },
    };
    let start_byte = match number_field(&payload, Field::StartByte) {
        Ok(n) => n,
        Err(e) => {
            return Err(e);
        },
    };
    let end_byte = match number_field(&payload, Field::EndByte) {
        Ok(n) => n,
        Err(e) => {
            return Err(e);
        },
    };
    Ok(
        Snippet {
            lang,
            repo_name,
            repo_ref,
            relative_path,
            text,
            start_line,
            end_line,
            start_byte,
            end_byte,
            score_bits,
            embedding,
        },
    )
}

/// The first decode error among the candidates, taken in their order.
pub open spec fn first_decode_error(cs: Seq<RawCandidate>) -> Option<DecodeError>
    decreases cs.len(),
{
    if cs.len() == 0 {
        None
    } else if decode_error(cs[0]) is Some {
        decode_error(cs[0])
    } else {
        first_decode_error(cs.drop_first())
    }
}

/// Decodes every candidate, in order. One candidate that cannot be decoded
/// fails the whole batch with its error: no snippet is returned then.
pub fn decode_all(cands: Vec<RawCandidate>) -> (r: Result<Vec<Snippet>, DecodeError>)
    ensures
        r is Ok <==> first_decode_error(cands@) is None,
        r is Err ==> first_decode_error(cands@) == Some(r->Err_0),
        r is Ok ==> r->Ok_0@.len() == cands@.len(),
        r is Ok ==> forall|i: int|
            0 <= i < cands@.len() ==> #[trigger] r->Ok_0@[i]@ == decoded(cands@[i]),
{
    let ghost all = cands@;
    let mut rest = cands;
    let mut out: Vec<Snippet> = Vec::new();
    while rest.len() > 0
        invariant
            all == cands@,
            out@.len() + rest@.len() == all.len(),
            rest@ == all.subrange(out@.len() as int, all.len() as int),
            first_decode_error(all) == first_decode_error(rest@),
            forall|i: int| 0 <= i < out@.len() ==> #[trigger] out@[i]@ == decoded(all[i]),
        decreases rest@.len(),
    {
        let ghost before = rest@;
        let c = rest.remove(0);
        assert(before.drop_first() =~= rest@);
        match decode(c) {
            Ok(s) => {
                out.push(s);
            },
            Err(e) => {
                assert(first_decode_error(before) == Some(e));
                return Err(e);
            },
        }
        assert(rest@ =~= all.subrange(out@.len() as int, all.len() as int));
    }
    Ok(out)
}

proof fn lemma_failing_candidate_fails_batch(cs: Seq<RawCandidate>, i: int)
    requires
        0 <= i < cs.len(),
        decode_error(cs[i]) is Some,
    ensures
        first_decode_error(cs) is Some,
    decreases i,
{
    if i > 0 && decode_error(cs[0]) is None {
        lemma_failing_candidate_fails_batch(cs.drop_first(), i - 1);
    }
}

/// A candidate whose payload lacks a required field cannot be decoded, and a
/// batch that holds it fails as a whole.
pub proof fn missing_field_fails_batch(cs: Seq<RawCandidate>, i: int, f: Field)
    requires
        0 <= i < cs.len(),
        lookup(cs[i].payload@, key_of(f)) is None,
    ensures
        decode_error(cs[i]) is Some,
        first_decode_error(cs) is Some,
{
    lemma_failing_candidate_fails_batch(cs, i);
}

/// A candidate whose line or byte field holds text that is not a decimal
/// number cannot be decoded, and a batch that holds it fails as a whole.
pub proof fn non_numeric_field_fails_batch(cs: Seq<RawCandidate>, i: int, f: Field, s: String)
    requires
        0 <= i < cs.len(),
        is_numeric(f),
        lookup(cs[i].payload@, key_of(f)) == Some(FieldValue::Text(s)),
        decimal_of(s@) is None,
    ensures
        decode_error(cs[i]) is Some,
        first_decode_error(cs) is Some,
{
    lemma_failing_candidate_fails_batch(cs, i);
}

} // verus!
