use vstd::prelude::*;

use crate::errors::SocialContextError;
use crate::inputs::{opt_str_view, Triple};

verus! {

/// The scheme separator of an address.
pub open spec fn separator() -> Seq<char> {
    "://"@
}

/// Whether the separator occurs at position `i`.
pub open spec fn sep_at(s: Seq<char>, i: int) -> bool {
    0 <= i && i + 3 <= s.len() && s.subrange(i, i + 3) == separator()
}

/// The first separator position at or after `k`, or -1.
pub open spec fn first_sep_from(s: Seq<char>, k: nat) -> int
    decreases s.len() - k,
{
    if k + 3 > s.len() {
        -1
    } else if sep_at(s, k as int) {
        k as int
    } else {
        first_sep_from(s, k + 1)
    }
}

/// The first separator position of the string, or -1.
pub open spec fn first_sep(s: Seq<char>) -> int {
    first_sep_from(s, 0)
}

/// A separator with none before it pins down `first_sep`.
proof fn lemma_first_sep_from_at(s: Seq<char>, k: nat, i: int)
    requires
        k <= i,
        sep_at(s, i),
        forall|j: int| k <= j < i ==> !sep_at(s, j),
    ensures
        first_sep_from(s, k) == i,
    decreases i - k,
{
    if k < i {
        lemma_first_sep_from_at(s, k + 1, i);
    }
}

/// Without any separator there is no first one.
proof fn lemma_first_sep_from_none(s: Seq<char>, k: nat)
    requires
        forall|j: int| k <= j ==> !sep_at(s, j),
    ensures
        first_sep_from(s, k) == -1,
    decreases s.len() - k,
{
    if k + 3 <= s.len() {
        lemma_first_sep_from_none(s, k + 1);
    }
}

/// A non-negative `first_sep` is a separator position with none before it.
proof fn lemma_first_sep_from_props(s: Seq<char>, k: nat)
    ensures
        first_sep_from(s, k) >= 0 ==> sep_at(s, first_sep_from(s, k)) && first_sep_from(s, k)
            >= k,
        first_sep_from(s, k) == -1 || first_sep_from(s, k) >= 0,
    decreases s.len() - k,
{
    if k + 3 <= s.len() && !sep_at(s, k as int) {
        lemma_first_sep_from_props(s, k + 1);
    }
}

/// An address split at its first separator: the text before it names the
/// language, the text after it the expression.
pub struct AcaiUrlView {
    pub language: Seq<char>,
    pub expression: Seq<char>,
}

/// The address a string parses to under the lenient rule: a separator must
/// occur, and at most one more may occur inside the expression.
pub open spec fn parse_acai_url(s: Seq<char>) -> Option<AcaiUrlView> {
    let i = first_sep(s);
    if i < 0 {
        None
    } else {
        let expression = s.skip(i + 3);
        let j = first_sep(expression);
        if j >= 0 && first_sep(expression.skip(j + 3)) >= 0 {
            None
        } else {
            Some(AcaiUrlView { language: s.take(i), expression })
        }
    }
}

/// The address a string parses to under the strict rule: exactly one
/// separator.
pub open spec fn parse_acai_url_strict(s: Seq<char>) -> Option<AcaiUrlView> {
    let i = first_sep(s);
    if i < 0 {
        None
    } else {
        let expression = s.skip(i + 3);
        if first_sep(expression) >= 0 {
            None
        } else {
            Some(AcaiUrlView { language: s.take(i), expression })
        }
    }
}

/// An address in the form `language://expression`.
#[derive(Debug, PartialEq)]
pub struct AcaiUrl {
    pub language: String,
    pub expression: String,
}

impl View for AcaiUrl {
    type V = AcaiUrlView;

    open spec fn view(&self) -> AcaiUrlView {
        AcaiUrlView { language: self.language@, expression: self.expression@ }
    }
}

impl Clone for AcaiUrl {
    fn clone(&self) -> (r: Self)
        ensures
            r == *self,
    {
        AcaiUrl { language: self.language.clone(), expression: self.expression.clone() }
    }
}

/// The position of the first separator of the string, if any.
fn find_separator(s: &str) -> (r: Option<usize>)
    ensures
        r matches Some(i) ==> first_sep(s@) == i,
        r is None ==> first_sep(s@) == -1,
{
    let n = s.unicode_len();
    if n < 3 {
        proof {
            lemma_first_sep_from_none(s@, 0);
        }
        return None;
    }
    let mut k: usize = 0;
    while k <= n - 3
        invariant
            n == s@.len(),
            3 <= n,
            k <= n,
            forall|j: int| 0 <= j < k ==> !sep_at(s@, j),
        decreases n - k,
    {
        if s.get_char(k) == ':' && s.get_char(k + 1) == '/' && s.get_char(k + 2) == '/' {
            proof {
                reveal_strlit("://");
                assert(s@.subrange(k as int, k as int + 3) =~= separator());
                assert(sep_at(s@, k as int));
                lemma_first_sep_from_at(s@, 0, k as int);
            }
            return Some(k);
        }
        proof {
            reveal_strlit("://");
            if sep_at(s@, k as int) {
                assert(s@.subrange(k as int, k as int + 3)[0] == s@[k as int]);
                assert(s@.subrange(k as int, k as int + 3)[1] == s@[k as int + 1]);
                assert(s@.subrange(k as int, k as int + 3)[2] == s@[k as int + 2]);
                assert(false);
            }
        }
        k += 1;
    }
    proof {
        assert forall|j: int| 0 <= j implies !sep_at(s@, j) by {
            if j + 3 <= n {
                assert(j < k);
            }
        }
        lemma_first_sep_from_none(s@, 0);
    }
    None
}

impl AcaiUrl {
    /// Parses `language://expression`; the expression may itself carry one
    /// further separator, so two or three segments are accepted.
    pub fn try_from(value: &String) -> (r: Result<AcaiUrl, SocialContextError>)
        ensures
            r is Ok <==> parse_acai_url(value@) is Some,
            r matches Ok(u) ==> parse_acai_url(value@) == Some(u@),
            r matches Err(e) ==> e matches SocialContextError::RequestError(m) && m@
                == "Expected maximum 3 & minimum 2 segments for subject url in form lang://expression"@,
    {
        let s = value.as_str();
        let n = s.unicode_len();
        let i = match find_separator(s) {
            Some(i) => i,
            None => {
                return Err(
                    SocialContextError::RequestError(
                        "Expected maximum 3 & minimum 2 segments for subject url in form lang://expression",
                    ),
                );
            },
        };
        proof {
            lemma_first_sep_from_props(s@, 0);
        }
        let language = String::from_str(s.substring_char(0, i));
        let expression_str = s.substring_char(i + 3, n);
        proof {
            assert(expression_str@ =~= s@.skip(i + 3));
        }
        let deeper = match find_separator(expression_str) {
            Some(j) => {
                proof {
                    lemma_first_sep_from_props(expression_str@, 0);
                }
                let m = expression_str.unicode_len();
                let rest = expression_str.substring_char(j + 3, m);
                proof {
                    assert(rest@ =~= expression_str@.skip(j + 3));
                }
                find_separator(rest).is_some()
            },
            None => false,
        };
        if deeper {
            return Err(
                SocialContextError::RequestError(
                    "Expected maximum 3 & minimum 2 segments for subject url in form lang://expression",
                ),
            );
        }
        let expression = String::from_str(expression_str);
        proof {
            assert(language@ =~= value@.take(i as int));
        }
        Ok(AcaiUrl { language, expression })
    }

    /// The address written back as `language://expression`.
    pub fn to_url(&self) -> (r: String)
        ensures
            r@ == self@.language + separator() + self@.expression,
    {
        self.language.clone().concat("://").concat(self.expression.as_str())
    }
}

/// Parses an optional address under the strict two-segment rule.
pub fn extract_acai_url(val: Option<String>) -> (r: Result<Option<AcaiUrl>, SocialContextError>)
    ensures
        val is None ==> r == Ok::<Option<AcaiUrl>, SocialContextError>(None),
        val matches Some(s) ==> {
            &&& r is Ok <==> parse_acai_url_strict(s@) is Some
            &&& (r matches Ok(u) ==> u matches Some(inner) && parse_acai_url_strict(s@) == Some(
                inner@,
            ))
            &&& (r matches Err(e) ==> e matches SocialContextError::RequestError(m) && m@
                == "Expected two segments for subject url in form lang://expression"@)
        },
{
    let inner = match val {
        Some(inner) => inner,
        None => {
            return Ok(None);
        },
    };
    let s = inner.as_str();
    let n = s.unicode_len();
    let i = match find_separator(s) {
        Some(i) => i,
        None => {
            return Err(
                SocialContextError::RequestError(
                    "Expected two segments for subject url in form lang://expression",
                ),
            );
        },
    };
    proof {
        lemma_first_sep_from_props(s@, 0);
    }
    let language = String::from_str(s.substring_char(0, i));
    let expression_str = s.substring_char(i + 3, n);
    proof {
        assert(expression_str@ =~= s@.skip(i + 3));
    }
    if find_separator(expression_str).is_some() {
        return Err(
            SocialContextError::RequestError(
                "Expected two segments for subject url in form lang://expression",
            ),
        );
    }
    let expression = String::from_str(expression_str);
    proof {
        assert(language@ =~= inner@.take(i as int));
    }
    Ok(Some(AcaiUrl { language, expression }))
}

/// A tag carried as a plain address string.
#[derive(Debug, PartialEq)]
pub struct UriTag(pub String);

/// A triple whose present fields parsed as addresses.
#[derive(Debug, PartialEq)]
pub struct TripleParsed {
    pub subject: Option<AcaiUrl>,
    pub object: Option<AcaiUrl>,
    pub predicate: Option<AcaiUrl>,
}

/// The parse of one optional field: absent stays absent, present must
/// strictly parse.
pub open spec fn parse_opt_field(o: Option<Seq<char>>) -> Option<Option<AcaiUrlView>> {
    match o {
        None => Some(None),
        Some(s) => match parse_acai_url_strict(s) {
            Some(u) => Some(Some(u)),
            None => None,
        },
    }
}

/// The image of an optional parsed address.
pub open spec fn opt_url_view(o: Option<AcaiUrl>) -> Option<AcaiUrlView> {
    match o {
        Some(u) => Some(u@),
        None => None,
    }
}

impl TripleParsed {
    /// Parses each present field of a triple as a strict two-segment
    /// address.
    pub fn try_from(value: Triple) -> (r: Result<TripleParsed, SocialContextError>)
        ensures
            r is Ok <==> (parse_opt_field(opt_str_view(value.subject)) is Some && parse_opt_field(
                opt_str_view(value.object),
            ) is Some && parse_opt_field(opt_str_view(value.predicate)) is Some),
            r matches Ok(t) ==> {
                &&& parse_opt_field(opt_str_view(value.subject)) == Some(opt_url_view(t.subject))
                &&& parse_opt_field(opt_str_view(value.object)) == Some(opt_url_view(t.object))
                &&& parse_opt_field(opt_str_view(value.predicate)) == Some(
                    opt_url_view(t.predicate),
                )
            },
            r matches Err(e) ==> e matches SocialContextError::RequestError(_),
    {
        let subject = match extract_acai_url(value.subject) {
            Ok(u) => u,
            Err(e) => {
                return Err(e);
            },
        };
        let object = match extract_acai_url(value.object) {
            Ok(u) => u,
            Err(e) => {
                return Err(e);
            },
        };
        let predicate = match extract_acai_url(value.predicate) {
            Ok(u) => u,
            Err(e) => {
                return Err(e);
            },
        };
        Ok(TripleParsed { subject, object, predicate })
    }
}

} // verus!
