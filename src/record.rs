//! The persisted model record: four floating-point literals separated by
//! white space, in the order intercept, slope, range minimum, range maximum.
use vstd::prelude::*;
use crate::number::{is_float_literal, is_float_text, lemma_float_literal_is_token};
use crate::text::{chars_of, is_white_space, white_space};

verus! {

/// The end of the run of non-white-space characters that starts at `i`.
pub open spec fn token_end(s: Seq<char>, i: int) -> int
    decreases s.len() - i,
{
    if i < 0 || i >= s.len() || is_white_space(s[i]) {
        i
    } else {
        token_end(s, i + 1)
    }
}

/// The white-space-separated tokens of `s` from position `i` on.
pub open spec fn tokens_from(s: Seq<char>, i: int) -> Seq<Seq<char>>
    decreases s.len() - i,
{
    if i < 0 || i >= s.len() {
        Seq::empty()
    } else if is_white_space(s[i]) {
        tokens_from(s, i + 1)
    } else {
        let j = token_end(s, i);
        if j <= i || j > s.len() {
            Seq::empty()
        } else {
            seq![s.subrange(i, j)] + tokens_from(s, j)
        }
    }
}

/// The white-space-separated tokens of `s`, as `str::split_whitespace` yields them.
pub open spec fn tokens(s: Seq<char>) -> Seq<Seq<char>> {
    tokens_from(s, 0)
}

proof fn lemma_token_at(s: Seq<char>, i: int, j: int)
    requires
        0 <= i <= j <= s.len(),
        forall|k: int| i <= k < j ==> !is_white_space(#[trigger] s[k]),
        j == s.len() || is_white_space(s[j]),
    ensures
        token_end(s, i) == j,
    decreases j - i,
{
    if i < j {
        lemma_token_at(s, i + 1, j);
    }
}

/// A field of the model record.
#[derive(Clone, Copy, Debug, PartialEq, Eq, Structural)]
pub enum Field {
    Intercept,
    Slope,
    RangeMin,
    RangeMax,
}

/// The field at position `k` of the record.
pub open spec fn field_at(k: int) -> Field {
    if k == 0 {
        Field::Intercept
    } else if k == 1 {
        Field::Slope
    } else if k == 2 {
        Field::RangeMin
    } else {
        Field::RangeMax
    }
}

/// The name under which a field is reported.
pub open spec fn field_label(f: Field) -> Seq<char> {
    match f {
        Field::Intercept => seq!['i', 'n', 't', 'e', 'r', 'c', 'e', 'p', 't'],
        Field::Slope => seq!['s', 'l', 'o', 'p', 'e'],
        Field::RangeMin => seq!['r', 'a', 'n', 'g', 'e', ' ', 'm', 'i', 'n', 'i', 'm', 'u', 'm'],
        Field::RangeMax => seq!['r', 'a', 'n', 'g', 'e', ' ', 'm', 'a', 'x', 'i', 'm', 'u', 'm'],
    }
}

impl Field {
    /// The name under which the field is reported.
    pub fn name(&self) -> (r: &'static str)
        ensures
            r@ == field_label(*self),
    {
        proof {
            reveal_strlit("intercept");
            reveal_strlit("slope");
            reveal_strlit("range minimum");
            reveal_strlit("range maximum");
        }
        match self {
            Field::Intercept => "intercept",
            Field::Slope => "slope",
            Field::RangeMin => "range minimum",
            Field::RangeMax => "range maximum",
        }
    }
}

/// Why a model record could not be read.
#[derive(Clone, Copy, Debug, PartialEq, Eq, Structural)]
pub enum RecordError {
    /// The text ends before this field.
    MissingField(Field),
    /// This field is not a floating-point literal.
    InvalidNumber(Field),
}

/// The fault of field `k` given the tokens `t`, if any.
pub open spec fn field_fault(t: Seq<Seq<char>>, k: int) -> Option<RecordError> {
    if t.len() <= k {
        Some(RecordError::MissingField(field_at(k)))
    } else if !is_float_literal(t[k]) {
        Some(RecordError::InvalidNumber(field_at(k)))
    } else {
        None
    }
}

/// The first faulty field, in record order.
pub open spec fn record_fault(t: Seq<Seq<char>>) -> Option<RecordError> {
    if field_fault(t, 0) is Some {
        field_fault(t, 0)
    } else if field_fault(t, 1) is Some {
        field_fault(t, 1)
    } else if field_fault(t, 2) is Some {
        field_fault(t, 2)
    } else {
        field_fault(t, 3)
    }
}

/// The four fields that the text `s` holds, or the first fault. Tokens after
/// the fourth are not read.
pub open spec fn parse_record(s: Seq<char>) -> Result<Seq<Seq<char>>, RecordError> {
    let t = tokens(s);
    match record_fault(t) {
        Some(e) => Err(e),
        None => Ok(t.take(4)),
    }
}

/// The text of a record: the fields separated by single spaces, then a line end.
pub open spec fn record_text(f: Seq<Seq<char>>) -> Seq<char> {
    f[0] + seq![' '] + f[1] + seq![' '] + f[2] + seq![' '] + f[3] + seq!['\n']
}

/// A model record whose four fields are floating-point literals.
#[derive(Debug)]
pub struct ModelRecord {
    intercept: String,
    slope: String,
    range_min: String,
    range_max: String,
}

impl View for ModelRecord {
    type V = Seq<Seq<char>>;

    closed spec fn view(&self) -> Seq<Seq<char>> {
        seq![self.intercept@, self.slope@, self.range_min@, self.range_max@]
    }
}

impl ModelRecord {
    /// The record has four fields, each a floating-point literal.
    pub open spec fn wf(&self) -> bool {
        &&& self@.len() == 4
        &&& forall|k: int| 0 <= k < 4 ==> is_float_literal(#[trigger] self@[k])
    }

    /// The record of these four fields, or the first that is not a
    /// floating-point literal.
    pub fn new(intercept: String, slope: String, range_min: String, range_max: String) -> (r:
        Result<ModelRecord, RecordError>)
        ensures
            ({
                let f = seq![intercept@, slope@, range_min@, range_max@];
                match record_fault(f) {
                    Some(e) => r == Err::<ModelRecord, RecordError>(e),
                    None => r is Ok && r->Ok_0@ == f && r->Ok_0.wf(),
                }
            }),
    {
        let ghost f = seq![intercept@, slope@, range_min@, range_max@];
        if !is_float_text(intercept.as_str()) {
            return Err(RecordError::InvalidNumber(Field::Intercept));
        }
        if !is_float_text(slope.as_str()) {
            return Err(RecordError::InvalidNumber(Field::Slope));
        }
        if !is_float_text(range_min.as_str()) {
            return Err(RecordError::InvalidNumber(Field::RangeMin));
        }
        if !is_float_text(range_max.as_str()) {
            return Err(RecordError::InvalidNumber(Field::RangeMax));
        }
        let r = ModelRecord { intercept, slope, range_min, range_max };
        assert(r@ =~= f);
        Ok(r)
    }

    pub fn intercept(&self) -> (r: &str)
        ensures
            r@ == self@[0],
    {
        self.intercept.as_str()
    }

    pub fn slope(&self) -> (r: &str)
        ensures
            r@ == self@[1],
    {
        self.slope.as_str()
    }

    pub fn range_min(&self) -> (r: &str)
        ensures
            r@ == self@[2],
    {
        self.range_min.as_str()
    }

    pub fn range_max(&self) -> (r: &str)
        ensures
            r@ == self@[3],
    {
        self.range_max.as_str()
    }
}

/// The bounds of the first token of `v` at or after `from`, if any.
fn next_token(v: &Vec<char>, from: usize) -> (r: Option<(usize, usize)>)
    requires
        from <= v@.len(),
    ensures
        match r {
            None => tokens_from(v@, from as int) == Seq::<Seq<char>>::empty(),
            Some((a, b)) => from <= a < b <= v@.len() && tokens_from(v@, from as int) == seq![
                v@.subrange(a as int, b as int),
            ] + tokens_from(v@, b as int),
        },
{
    let n = v.len();
    let mut a = from;
    while a < n && white_space(v[a])
        invariant
            from <= a <= n == v@.len(),
            tokens_from(v@, from as int) == tokens_from(v@, a as int),
        decreases n - a,
    {
        a = a + 1;
    }
    if a == n {
        return None;
    }
    let mut b = a + 1;
    while b < n && !white_space(v[b])
        invariant
            a < b <= n == v@.len(),
            forall|k: int| a <= k < b ==> !is_white_space(#[trigger] v@[k]),
        decreases n - b,
    {
        b = b + 1;
    }
    proof {
        lemma_token_at(v@, a as int, b as int);
    }
    Some((a, b))
}

/// Reads a model record from its text: the first four white-space-separated
/// tokens, each a floating-point literal. Fails on the first field, in record
/// order, that is missing or not a number.
pub fn parse_model_record(text: &str) -> (r: Result<ModelRecord, RecordError>)
    ensures
        match parse_record(text@) {
            Ok(f) => r is Ok && r->Ok_0@ == f && r->Ok_0.wf(),
            Err(e) => r == Err::<ModelRecord, RecordError>(e),
        },
{
    let v = chars_of(text);
    let ghost t = tokens(v@);
    let mut fields: Vec<String> = Vec::new();
    let mut pos: usize = 0;
    let mut k: usize = 0;
    while k < 4
        invariant
            v@ == text@,
            t == tokens(v@),
            pos <= v@.len(),
            k <= 4,
            fields@.len() == k,
            t == fields@.map_values(|f: String| f@) + tokens_from(v@, pos as int),
            forall|i: int| 0 <= i < k ==> field_fault(t, i) is None,
        decreases 4 - k,
    {
        let ghost fv = fields@.map_values(|f: String| f@);
        match next_token(&v, pos) {
            None => {
                assert(t =~= fv);
                return Err(RecordError::MissingField(field_name_at(k)));
            },
            Some((a, b)) => {
                let tok = text.substring_char(a, b).to_owned();
                assert(t[k as int] == tok@);
                if !is_float_text(tok.as_str()) {
                    return Err(RecordError::InvalidNumber(field_name_at(k)));
                }
                fields.push(tok);
                assert(fields@.map_values(|f: String| f@) =~= fv.push(tok@));
                assert(t =~= fields@.map_values(|f: String| f@) + tokens_from(v@, b as int));
                pos = b;
            },
        }
        k = k + 1;
    }
    let range_max = fields.pop().unwrap();
    let range_min = fields.pop().unwrap();
    let slope = fields.pop().unwrap();
    let intercept = fields.pop().unwrap();
    assert(t[0] == intercept@ && t[1] == slope@ && t[2] == range_min@ && t[3] == range_max@);
    let r = ModelRecord { intercept, slope, range_min, range_max };
    assert(r@ =~= t.take(4));
    Ok(r)
}

fn field_name_at(k: usize) -> (r: Field)
    requires
        k < 4,
    ensures
        r == field_at(k as int),
{
    if k == 0 {
        Field::Intercept
    } else if k == 1 {
        Field::Slope
    } else if k == 2 {
        Field::RangeMin
    } else {
        Field::RangeMax
    }
}

/// The text of a record: its fields separated by single spaces, then a line end.
pub fn format_model_record(rec: &ModelRecord) -> (r: String)
    ensures
        r@ == record_text(rec@),
{
    let mut s = String::new();
    let sep = " ";
    let end = "\n";
    proof {
        reveal_strlit(" ");
        reveal_strlit("\n");
    }
    s.append(rec.intercept.as_str());
    s.append(sep);
    s.append(rec.slope.as_str());
    s.append(sep);
    s.append(rec.range_min.as_str());
    s.append(sep);
    s.append(rec.range_max.as_str());
    s.append(end);
    assert(s@ =~= record_text(rec@));
    s
}

/// Reading back the text of a record gives the same four fields.
pub proof fn lemma_record_round_trip(f: Seq<Seq<char>>)
    requires
        f.len() == 4,
        forall|k: int| 0 <= k < 4 ==> is_float_literal(#[trigger] f[k]),
    ensures
        parse_record(record_text(f)) == Ok::<Seq<Seq<char>>, RecordError>(f),
{
    let s = record_text(f);
    let l0 = f[0].len() as int;
    let l1 = f[1].len() as int;
    let l2 = f[2].len() as int;
    let l3 = f[3].len() as int;
    assert(is_float_literal(f[0]) && is_float_literal(f[1]));
    assert(is_float_literal(f[2]) && is_float_literal(f[3]));
    lemma_float_literal_is_token(f[0]);
    lemma_float_literal_is_token(f[1]);
    lemma_float_literal_is_token(f[2]);
    lemma_float_literal_is_token(f[3]);
    let p1 = l0 + 1;
    let p2 = p1 + l1 + 1;
    let p3 = p2 + l2 + 1;
    let e3 = p3 + l3;
    assert(s.len() == e3 + 1);
    assert(is_white_space(' ') && is_white_space('\n')) by {
        assert((' ' as u32) == 32);
        assert(('\n' as u32) == 10);
    }
    assert(s.subrange(0, l0) =~= f[0]);
    assert(s.subrange(p1, p1 + l1) =~= f[1]);
    assert(s.subrange(p2, p2 + l2) =~= f[2]);
    assert(s.subrange(p3, e3) =~= f[3]);
    assert(s[l0] == ' ' && s[p1 + l1] == ' ' && s[p2 + l2] == ' ' && s[e3] == '\n');
    assert forall|k: int| 0 <= k < l0 implies !is_white_space(#[trigger] s[k]) by {
        assert(s[k] == f[0][k]);
    }
    assert forall|k: int| p1 <= k < p1 + l1 implies !is_white_space(#[trigger] s[k]) by {
        assert(s[k] == f[1][k - p1]);
    }
    assert forall|k: int| p2 <= k < p2 + l2 implies !is_white_space(#[trigger] s[k]) by {
        assert(s[k] == f[2][k - p2]);
    }
    assert forall|k: int| p3 <= k < e3 implies !is_white_space(#[trigger] s[k]) by {
        assert(s[k] == f[3][k - p3]);
    }
    lemma_token_at(s, 0, l0);
    lemma_token_at(s, p1, p1 + l1);
    lemma_token_at(s, p2, p2 + l2);
    lemma_token_at(s, p3, e3);
    assert(tokens_from(s, e3 + 1) == Seq::<Seq<char>>::empty());
    assert(tokens_from(s, e3) == Seq::<Seq<char>>::empty());
    assert(tokens_from(s, p3) == seq![f[3]]);
    assert(tokens_from(s, p2 + l2) == tokens_from(s, p3));
    assert(tokens_from(s, p2) =~= seq![f[2], f[3]]);
    assert(tokens_from(s, p1 + l1) == tokens_from(s, p2));
    assert(tokens_from(s, p1) =~= seq![f[1], f[2], f[3]]);
    assert(tokens_from(s, l0) == tokens_from(s, p1));
    assert(tokens_from(s, 0) =~= seq![f[0], f[1], f[2], f[3]]);
    assert(tokens(s).take(4) =~= f);
}

} // verus!
