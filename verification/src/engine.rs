//! The template grammar: delimiter matching, expression extraction, tag
//! classification, line classification, and rendering.

use vstd::prelude::*;
use vstd::string::StrSliceExecFns;
use vstd::string::StringExecFns;
use crate::scan::first_match;
use crate::scan::first_match_from;
use crate::scan::get_index_for_symbol;
use crate::scan::lemma_first_match_from_advance;
use crate::scan::lemma_first_match_from_sound;
use crate::scan::occurs;
use crate::scan::spec_trim;
use crate::context::Context;

verus! {

/// The kind of control tag a line carries.
#[derive(Debug, PartialEq, Eq, Clone, Copy)]
pub enum TagType {
    ForTag,
    IfTag,
}

/// A variable interpolation split into the text before the opening marker,
/// the trimmed variable name between the markers, and the text after the
/// closing marker.
#[derive(Debug, PartialEq, Eq)]
pub struct ExpressionData {
    pub head: String,
    pub variable: String,
    pub tail: String,
}

/// The classification of one input line.
#[derive(Debug, PartialEq, Eq)]
pub enum ContentType {
    Literal(String),
    TemplateVariable(ExpressionData),
    Tag(TagType),
    Unrecognized,
}

/// The recoverable failures of classification and rendering.
#[derive(Debug, PartialEq, Eq, Clone, Copy)]
pub enum TemplateError {
    /// An interpolation-marked line has no extractable expression.
    MalformedExpression,
    /// A tag-marked line's payload is too short to classify.
    MalformedTag,
    /// A tag-marked line's keyword is neither `if` nor `for`.
    UnknownTag,
    /// A referenced context key has no value at render time.
    MissingVariable,
}

/// The opening interpolation marker, `{{`.
pub open spec fn var_left() -> Seq<char> {
    seq!['{', '{']
}

/// The closing interpolation marker, `}}`.
pub open spec fn var_right() -> Seq<char> {
    seq!['}', '}']
}

/// The opening tag marker, `{%`.
pub open spec fn tag_left() -> Seq<char> {
    seq!['{', '%']
}

/// The closing tag marker, `%}`.
pub open spec fn tag_right() -> Seq<char> {
    seq!['%', '}']
}

/// A line contains a well-formed `left ... right` pair: both markers occur,
/// and the position just past the first occurrence of `left` lies strictly
/// before the first occurrence of `right`, so at least one payload character
/// separates them.
pub open spec fn pair_matches(s: Seq<char>, left: Seq<char>, right: Seq<char>) -> bool {
    &&& first_match(s, left) is Some
    &&& first_match(s, right) is Some
    &&& first_match(s, left)->Some_0 + left.len() < first_match(s, right)->Some_0
}

/// Splits `s` at the first occurrence of `left` and the first occurrence of
/// `right` after it: the text before `left`, the payload between the
/// markers, and the text after `right`. `None` when either marker cannot be
/// located.
pub open spec fn spec_split(s: Seq<char>, left: Seq<char>, right: Seq<char>) -> Option<
    (Seq<char>, Seq<char>, Seq<char>),
> {
    match first_match(s, left) {
        Option::None => None,
        Option::Some(i) => match first_match_from(s, right, i + left.len()) {
            Option::None => None,
            Option::Some(j) => Some(
                (
                    s.subrange(0, i),
                    s.subrange(i + left.len(), j),
                    s.subrange(j + right.len(), s.len() as int),
                ),
            ),
        },
    }
}

/// Whether `input` contains a well-formed `left_symbol ... right_symbol`
/// pair with at least one character between the markers.
pub fn check_matching_pair(input: &str, left_symbol: &str, right_symbol: &str) -> (r: bool)
    ensures
        r == pair_matches(input@, left_symbol@, right_symbol@),
{
    let li = get_index_for_symbol(input, left_symbol);
    let ri = get_index_for_symbol(input, right_symbol);
    match (li, ri) {
        (Option::Some(i), Option::Some(j)) => {
            let n = input.unicode_len();
            let m = left_symbol.unicode_len();
            proof {
                lemma_first_match_from_sound(input@, left_symbol@, 0, i as int);
                assert(i + m <= n);
            }
            i + m < j
        },
        _ => false,
    }
}

/// Splits an interpolation-marked line into head text, trimmed variable
/// name, and tail text, per the first `{{ ... }}` pair. Fails with
/// `MalformedExpression` exactly when either marker cannot be located.
pub fn get_expression_data(input: &str) -> (r: Result<ExpressionData, TemplateError>)
    ensures
        match r {
            Ok(e) => ({
                &&& spec_split(input@, var_left(), var_right()) matches Some(t)
                &&& e.head@ == t.0
                &&& e.variable@ == spec_trim(t.1)
                &&& e.tail@ == t.2
            }),
            Err(err) => spec_split(input@, var_left(), var_right()) is None && err
                == TemplateError::MalformedExpression,
        },
{
    proof {
        reveal_strlit("{{");
        reveal_strlit("}}");
        assert("{{"@ =~= var_left());
        assert("}}"@ =~= var_right());
    }
    let n = input.unicode_len();
    let i = match get_index_for_symbol(input, "{{") {
        Option::Some(i) => i,
        Option::None => { return Err(TemplateError::MalformedExpression) },
    };
    proof {
        lemma_first_match_from_sound(input@, var_left(), 0, i as int);
        assert(i + 2 <= n);
    }
    let j = match crate::scan::find_from(input, "}}", i + 2) {
        Option::Some(j) => j,
        Option::None => { return Err(TemplateError::MalformedExpression) },
    };
    proof {
        lemma_first_match_from_sound(input@, var_right(), i as int + 2, j as int);
        assert(j + 2 <= n);
    }
    let head = input.substring_char(0, i);
    let (va, vb) = crate::scan::trim_range(input, i + 2, j);
    let variable = input.substring_char(va, vb);
    let tail = input.substring_char(j + 2, n);
    Ok(
        ExpressionData {
            head: head.to_owned(),
            variable: variable.to_owned(),
            tail: tail.to_owned(),
        },
    )
}

/// The keyword `if`.
pub open spec fn if_word() -> Seq<char> {
    seq!['i', 'f']
}

/// The keyword `for`.
pub open spec fn for_word() -> Seq<char> {
    seq!['f', 'o', 'r']
}

/// The tag kind named by a tag payload: trim the payload, take its first
/// four characters, and look for `if` first, then `for`, anywhere in them.
/// A trimmed payload shorter than four characters is malformed; four
/// characters naming neither keyword are an unknown tag.
pub open spec fn tag_of_payload(payload: Seq<char>) -> Result<TagType, TemplateError> {
    let t = spec_trim(payload);
    if t.len() < 4 {
        Err(TemplateError::MalformedTag)
    } else {
        let prefix = t.subrange(0, 4);
        if occurs(prefix, if_word()) {
            Ok(TagType::IfTag)
        } else if occurs(prefix, for_word()) {
            Ok(TagType::ForTag)
        } else {
            Err(TemplateError::UnknownTag)
        }
    }
}

/// Classifies a tag-marked line by the payload between its first
/// `{% ... %}` pair. The caller must already have checked the tag
/// delimiter pair.
pub fn get_tag_type(input: &str) -> (r: Result<TagType, TemplateError>)
    requires
        pair_matches(input@, tag_left(), tag_right()),
    ensures
        spec_split(input@, tag_left(), tag_right()) matches Some(t) && r == tag_of_payload(t.1),
{
    proof {
        reveal_strlit("{%");
        reveal_strlit("%}");
        assert("{%"@ =~= tag_left());
        assert("%}"@ =~= tag_right());
    }
    let n = input.unicode_len();
    let i = match get_index_for_symbol(input, "{%") {
        Option::Some(i) => i,
        Option::None => { return Err(TemplateError::MalformedTag) },
    };
    proof {
        lemma_first_match_from_sound(input@, tag_left(), 0, i as int);
        assert(i + 2 <= n);
        let j0 = first_match(input@, tag_right())->Some_0;
        lemma_first_match_from_advance(input@, tag_right(), 0, i as int + 2, j0);
    }
    let j = match crate::scan::find_from(input, "%}", i + 2) {
        Option::Some(j) => j,
        Option::None => { return Err(TemplateError::MalformedTag) },
    };
    proof {
        lemma_first_match_from_sound(input@, tag_right(), i as int + 2, j as int);
    }
    let (ta, tb) = crate::scan::trim_range(input, i + 2, j);
    if tb - ta < 4 {
        return Err(TemplateError::MalformedTag);
    }
    let prefix = input.substring_char(ta, ta + 4);
    proof {
        reveal_strlit("if");
        reveal_strlit("for");
        assert("if"@ =~= if_word());
        assert("for"@ =~= for_word());
        let t = spec_trim(input@.subrange(i as int + 2, j as int));
        assert(prefix@ =~= t.subrange(0, 4));
    }
    if get_index_for_symbol(prefix, "if").is_some() {
        Ok(TagType::IfTag)
    } else if get_index_for_symbol(prefix, "for").is_some() {
        Ok(TagType::ForTag)
    } else {
        Err(TemplateError::UnknownTag)
    }
}

/// Renders an extracted expression against a context: the head text, then
/// the context's value for the variable, then the tail text. Fails with
/// `MissingVariable` exactly when the variable is unbound; a missing
/// variable is reported, never substituted by an empty string.
pub fn generate_html_template_var(content: ExpressionData, context: &Context) -> (r: Result<
    String,
    TemplateError,
>)
    ensures
        match r {
            Ok(out) => context@.contains_key(content.variable@) && out@ == content.head@
                + context@[content.variable@] + content.tail@,
            Err(e) => !context@.contains_key(content.variable@) && e
                == TemplateError::MissingVariable,
        },
{
    match context.get(content.variable.as_str()) {
        Option::Some(value) => {
            let mut out = String::new();
            out.append(content.head.as_str());
            out.append(value.as_str());
            out.append(content.tail.as_str());
            proof {
                assert(out@ =~= content.head@ + context@[content.variable@] + content.tail@);
            }
            Ok(out)
        },
        Option::None => Err(TemplateError::MissingVariable),
    }
}

/// What `get_content_type` promises of its result `r` for a line `s`:
/// a line with a well-formed interpolation pair is an extracted
/// `TemplateVariable` — even when it also carries a tag pair, a deliberate
/// tie-break; otherwise a line with a well-formed tag pair is a `Tag` of the
/// payload's kind or that payload's classification error; any other line is
/// a `Literal` carrying the input exactly.
pub open spec fn classified(s: Seq<char>, r: Result<ContentType, TemplateError>) -> bool {
    if pair_matches(s, var_left(), var_right()) {
        match spec_split(s, var_left(), var_right()) {
            Option::Some(t) => {
                &&& r matches Ok(c)
                &&& c matches ContentType::TemplateVariable(e)
                &&& e.head@ == t.0
                &&& e.variable@ == spec_trim(t.1)
                &&& e.tail@ == t.2
            },
            Option::None => false,
        }
    } else if pair_matches(s, tag_left(), tag_right()) {
        match spec_split(s, tag_left(), tag_right()) {
            Option::Some(t) => match tag_of_payload(t.1) {
                Ok(k) => r == Ok::<ContentType, TemplateError>(ContentType::Tag(k)),
                Err(e) => r == Err::<ContentType, TemplateError>(e),
            },
            Option::None => false,
        }
    } else {
        &&& r matches Ok(c)
        &&& c matches ContentType::Literal(text)
        &&& text@ == s
    }
}

/// A well-formed delimiter pair guarantees that the split succeeds, with at
/// least one payload character between the markers.
pub proof fn lemma_pair_matches_split(s: Seq<char>, left: Seq<char>, right: Seq<char>)
    requires
        pair_matches(s, left, right),
    ensures
        spec_split(s, left, right) is Some,
        spec_split(s, left, right)->Some_0.1.len() >= 1,
{
    let i = first_match(s, left)->Some_0;
    let j = first_match(s, right)->Some_0;
    lemma_first_match_from_sound(s, left, 0, i);
    lemma_first_match_from_sound(s, right, 0, j);
    lemma_first_match_from_advance(s, right, 0, i + left.len(), j);
    assert(spec_split(s, left, right)->Some_0.1 == s.subrange(i + left.len(), j));
    assert(s.subrange(i + left.len(), j).len() == j - i - left.len());
}

/// Round-trip law: a successful split decomposes the line exactly — head,
/// opening marker, payload, closing marker, and tail concatenate back to
/// the original line. The variable an `ExpressionData` carries is the
/// trimmed payload, so a line rebuilt from an extracted expression matches
/// the original up to that trim, and exactly when the payload carries no
/// surrounding whitespace.
pub proof fn lemma_split_round_trip(s: Seq<char>, left: Seq<char>, right: Seq<char>)
    requires
        spec_split(s, left, right) is Some,
    ensures
        ({
            let t = spec_split(s, left, right)->Some_0;
            t.0 + left + t.1 + right + t.2 == s
        }),
{
    let i = first_match(s, left)->Some_0;
    lemma_first_match_from_sound(s, left, 0, i);
    let j = first_match_from(s, right, i + left.len())->Some_0;
    lemma_first_match_from_sound(s, right, i + left.len(), j);
    let t = spec_split(s, left, right)->Some_0;
    assert(s.subrange(i, i + left.len()) == left);
    assert(s.subrange(j, j + right.len()) == right);
    assert(t.0 + left + t.1 + right + t.2 =~= s);
}

/// Round-trip law for extracted expressions: when the payload between the
/// interpolation markers carries no surrounding whitespace, an expression
/// extracted from the line rebuilds the line exactly as
/// `head + "{{" + variable + "}}" + tail`.
pub proof fn lemma_expression_round_trip(s: Seq<char>, e: ExpressionData)
    requires
        spec_split(s, var_left(), var_right()) is Some,
        ({
            let t = spec_split(s, var_left(), var_right())->Some_0;
            &&& e.head@ == t.0
            &&& e.variable@ == spec_trim(t.1)
            &&& e.tail@ == t.2
            &&& spec_trim(t.1) == t.1
        }),
    ensures
        e.head@ + var_left() + e.variable@ + var_right() + e.tail@ == s,
{
    lemma_split_round_trip(s, var_left(), var_right());
}

/// Precedence law: a line whose interpolation pair matches is classified as
/// an interpolation, whatever else it contains — even when its tag pair
/// matches too.
pub proof fn lemma_interpolation_precedence(s: Seq<char>, r: Result<ContentType, TemplateError>)
    requires
        classified(s, r),
        pair_matches(s, var_left(), var_right()),
    ensures
        r matches Ok(c) && c is TemplateVariable,
{
    lemma_pair_matches_split(s, var_left(), var_right());
}

/// Literal law: a line with neither a well-formed interpolation pair nor a
/// well-formed tag pair is classified as a literal that carries the line
/// unchanged.
pub proof fn lemma_literal_passthrough(s: Seq<char>, r: Result<ContentType, TemplateError>)
    requires
        classified(s, r),
        !pair_matches(s, var_left(), var_right()),
        !pair_matches(s, tag_left(), tag_right()),
    ensures
        r matches Ok(c) && c matches ContentType::Literal(text) && text@ == s,
{
}

/// Classifies one line of input, checking the interpolation pair before the
/// tag pair.
pub fn get_content_type(line: &str) -> (r: Result<ContentType, TemplateError>)
    ensures
        classified(line@, r),
{
    proof {
        reveal_strlit("{{");
        reveal_strlit("}}");
        assert("{{"@ =~= var_left());
        assert("}}"@ =~= var_right());
        reveal_strlit("{%");
        reveal_strlit("%}");
        assert("{%"@ =~= tag_left());
        assert("%}"@ =~= tag_right());
    }
    if check_matching_pair(line, "{{", "}}") {
        match get_expression_data(line) {
            Ok(e) => Ok(ContentType::TemplateVariable(e)),
            Err(err) => {
                proof {
                    lemma_pair_matches_split(line@, var_left(), var_right());
                    assert(false);
                }
                Err(err)
            },
        }
    } else if check_matching_pair(line, "{%", "%}") {
        match get_tag_type(line) {
            Ok(k) => Ok(ContentType::Tag(k)),
            Err(err) => Err(err),
        }
    } else {
        Ok(ContentType::Literal(line.to_owned()))
    }
}

} // verus!
