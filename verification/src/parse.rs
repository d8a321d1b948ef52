//! The prototype parser: one candidate line from inside the marker region
//! either becomes a `ParsedPrototype` or yields a `ParseError`, under an
//! exact spec-level definition of both outcomes.

use vstd::prelude::*;

use crate::proto::{count_non_marker, wf_prototype, ParsedPrototype, Prototype};
use crate::text::{
    find_char, find_pair, has_char, lower_char, rfind_char, split_char, trim_blanks,
};

verus! {

/// Why a candidate line is not a prototype. Every such line is a fatal
/// shape violation: the caller is expected to stop the whole run.
#[derive(Clone, Copy, Debug, PartialEq, Eq, Structural)]
pub enum ParseError {
    /// Fewer than three blank-separated tokens, so the return type or the
    /// calling-convention token is missing.
    MissingToken,
    /// The fixed two-character call-name prefix occurs nowhere in the line.
    MissingCallPrefix,
    /// No opening parenthesis, no closing parenthesis, or the closing one
    /// stands before the opening one.
    UnmatchedParens,
    /// The call name is too short to strip the prefix from.
    ShortName,
    /// A raw parameter holds no blank yet is not the no-argument marker.
    BadParameter,
}

/// Trims each raw parameter declaration and extracts the bare names:
/// the declarator after the last blank, and after its last `*` if it has
/// one. A declaration without a blank must be the no-argument marker; it
/// contributes no name.
pub open spec fn parse_params(raw: Seq<Seq<char>>) -> Result<
    (Seq<Seq<char>>, Seq<Seq<char>>),
    ParseError,
>
    decreases raw.len(),
{
    if raw.len() == 0 {
        Ok((Seq::empty(), Seq::empty()))
    } else {
        let p = trim_blanks(raw[0]);
        let head: Result<Option<Seq<char>>, ParseError> = match rfind_char(p, ' ') {
            None => if p == "void"@ {
                Ok(None)
            } else {
                Err(ParseError::BadParameter)
            },
            Some(i) => {
                let tail = p.skip(i + 1);
                let name = match rfind_char(tail, '*') {
                    Some(j) => tail.skip(j + 1),
                    None => tail,
                };
                Ok(Some(name))
            },
        };
        match head {
            Err(e) => Err(e),
            Ok(name_opt) => match parse_params(raw.skip(1)) {
                Err(e) => Err(e),
                Ok(rest) => Ok(
                    (
                        seq![p] + rest.0,
                        match name_opt {
                            Some(name) => seq![name] + rest.1,
                            None => rest.1,
                        },
                    ),
                ),
            },
        }
    }
}

/// What one candidate line parses to. Tokens one and two (after the leading
/// marker token) give the return type, a `*` in the calling-convention token
/// marking a pointer return; the name runs from the first occurrence of the
/// prefix `gl` to just before the opening parenthesis; the wrapper name drops
/// the prefix and lower-cases the next character; the parenthesized list,
/// split on commas, gives the parameters.
pub open spec fn parse_line(line: Seq<char>) -> Result<Prototype, ParseError> {
    let tokens = split_char(line, ' ');
    if tokens.len() < 3 {
        Err(ParseError::MissingToken)
    } else {
        let return_type: Seq<char> = if has_char(tokens[2], '*') {
            tokens[1] + seq!['*']
        } else {
            tokens[1]
        };
        match find_pair(line, 'g', 'l') {
            None => Err(ParseError::MissingCallPrefix),
            Some(g) => {
                let rest = line.skip(g);
                match find_char(rest, '(') {
                    None => Err(ParseError::UnmatchedParens),
                    Some(pb) => match find_char(rest, ')') {
                        None => Err(ParseError::UnmatchedParens),
                        Some(pe) => if pe < pb + 1 {
                            Err(ParseError::UnmatchedParens)
                        } else if pb < 4 {
                            Err(ParseError::ShortName)
                        } else {
                            let native = rest.take(pb - 1);
                            let wrapper = seq![lower_char(native[2])] + native.skip(3);
                            match parse_params(split_char(rest.subrange(pb + 1, pe), ',')) {
                                Err(e) => Err(e),
                                Ok(pn) => Ok(
                                    Prototype {
                                        return_type: return_type,
                                        native_name: native,
                                        wrapper_name: wrapper,
                                        parameters: pn.0,
                                        parameter_names: pn.1,
                                    },
                                ),
                            }
                        },
                    },
                }
            },
        }
    }
}

/// On success `parse_params` yields one trimmed declaration per raw entry
/// and one bare name per non-marker declaration, and no bare name holds a
/// blank or a pointer sigil.
pub proof fn lemma_parse_params_wf(raw: Seq<Seq<char>>)
    ensures
        parse_params(raw) matches Ok(pn) ==> {
            &&& pn.0.len() == raw.len()
            &&& pn.1.len() == count_non_marker(pn.0)
            &&& forall|k: int|
                0 <= k < pn.1.len() ==> !has_char(#[trigger] pn.1[k], ' ') && !has_char(
                    pn.1[k],
                    '*',
                )
        },
    decreases raw.len(),
{
    if raw.len() == 0 {
    } else if parse_params(raw) is Ok {
        let p = trim_blanks(raw[0]);
        lemma_parse_params_wf(raw.skip(1));
        let rest = parse_params(raw.skip(1)).unwrap();
        let pn = parse_params(raw).unwrap();
        assert(pn.0 == seq![p] + rest.0);
        assert(pn.0.skip(1) =~~= rest.0);
        match rfind_char(p, ' ') {
            None => {
                assert(p == "void"@);
                assert(count_non_marker(pn.0) == count_non_marker(rest.0));
            },
            Some(i) => {
                crate::text::lemma_rfind_char(p, ' ');
                let tail = p.skip(i + 1);
                assert(forall|j: int| 0 <= j < tail.len() ==> tail[j] == p[j + i + 1]);
                assert(!has_char(tail, ' '));
                let name = match rfind_char(tail, '*') {
                    Some(j) => tail.skip(j + 1),
                    None => tail,
                };
                crate::text::lemma_rfind_char(tail, '*');
                match rfind_char(tail, '*') {
                    Some(j) => {
                        assert(forall|k: int|
                            0 <= k < name.len() ==> name[k] == tail[k + j + 1]);
                        assert(!has_char(name, ' '));
                        assert(!has_char(name, '*'));
                    },
                    None => {
                        assert(!has_char(name, ' '));
                        assert(!has_char(name, '*'));
                    },
                }
                // A declaration with a blank in it is not the bare marker.
                assert(p[i] == ' ');
                assert(p != "void"@) by {
                    reveal_strlit("void");
                    if p == "void"@ {
                        assert(has_char("void"@, ' '));
                    }
                }
                assert(count_non_marker(pn.0) == 1 + count_non_marker(rest.0));
                assert(pn.1 == seq![name] + rest.1);
            },
        }
    }
}

/// Stability: parsing is a pure function of the line, so parsing the same
/// line again yields the same outcome.
pub proof fn lemma_parse_stable(a: Seq<char>, b: Seq<char>)
    requires
        a == b,
    ensures
        parse_line(a) == parse_line(b),
{
}

/// The wrapper-name law: a successful parse names the wrapper after the
/// native name with its two-character prefix stripped and the following
/// character lower-cased, so the wrapper name is never empty.
pub proof fn lemma_wrapper_name(line: Seq<char>)
    ensures
        parse_line(line) matches Ok(r) ==> {
            &&& r.native_name.len() >= 3
            &&& r.wrapper_name == seq![lower_char(r.native_name[2])] + r.native_name.skip(3)
            &&& r.wrapper_name.len() >= 1
        },
{
    if parse_line(line) is Ok {
        crate::text::lemma_find_pair(line, 'g', 'l');
        let g = find_pair(line, 'g', 'l').unwrap();
        let rest = line.skip(g);
        crate::text::lemma_find_char(rest, '(');
        let pb = find_char(rest, '(').unwrap();
        assert(rest.take(pb - 1).len() == pb - 1);
    }
}

/// The parameter-name law: a successful parse yields exactly one bare name
/// per non-marker parameter, in order, and each bare name is free of blanks
/// and pointer sigils.
pub proof fn lemma_parameter_names(line: Seq<char>)
    ensures
        parse_line(line) matches Ok(r) ==> {
            &&& r.parameter_names.len() == count_non_marker(r.parameters)
            &&& forall|k: int|
                0 <= k < r.parameter_names.len() ==> !has_char(#[trigger] r.parameter_names[k], ' ')
                    && !has_char(r.parameter_names[k], '*')
        },
{
    if parse_line(line) is Ok {
        let tokens = split_char(line, ' ');
        let g = find_pair(line, 'g', 'l').unwrap();
        let rest = line.skip(g);
        let pb = find_char(rest, '(').unwrap();
        let pe = find_char(rest, ')').unwrap();
        lemma_parse_params_wf(split_char(rest.subrange(pb + 1, pe), ','));
    }
}

/// Every successful parse yields a well-formed prototype record.
pub proof fn lemma_parse_wf(line: Seq<char>)
    ensures
        parse_line(line) matches Ok(r) ==> wf_prototype(r),
{
    lemma_wrapper_name(line);
    lemma_parameter_names(line);
}

/// Parses one candidate line, exactly as `parse_line` states: the record on
/// a line of the expected shape, and the matching error otherwise.
#[verifier::loop_isolation(false)]
pub fn parse_api(line: &str) -> (r: Result<ParsedPrototype, ParseError>)
    ensures
        match r {
            Ok(p) => parse_line(line@) == Ok::<Prototype, ParseError>(p@) && wf_prototype(p@),
            Err(e) => parse_line(line@) == Err::<Prototype, ParseError>(e),
        },
{
    let tokens = crate::text::split_str(line, ' ');
    if tokens.len() < 3 {
        return Err(ParseError::MissingToken);
    }
    let mut return_type = tokens[1].clone();
    proof {
        assert(tokens.deep_view()[1] == tokens@[1]@);
        assert(tokens.deep_view()[2] == tokens@[2]@);
    }
    if crate::text::has_char_str(tokens[2].as_str(), '*') {
        return_type.append("*");
        proof {
            reveal_strlit("*");
            assert(return_type@ =~= tokens.deep_view()[1] + seq!['*']);
        }
    }
    let g = match crate::text::find_pair_str(line, 'g', 'l') {
        None => {
            return Err(ParseError::MissingCallPrefix);
        },
        Some(g) => g,
    };
    proof {
        crate::text::lemma_find_pair(line@, 'g', 'l');
    }
    let n = line.unicode_len();
    let rest = line.substring_char(g, n);
    proof {
        assert(rest@ =~= line@.skip(g as int));
    }
    let pb = match crate::text::find_char_str(rest, '(') {
        None => {
            return Err(ParseError::UnmatchedParens);
        },
        Some(pb) => pb,
    };
    let pe = match crate::text::find_char_str(rest, ')') {
        None => {
            return Err(ParseError::UnmatchedParens);
        },
        Some(pe) => pe,
    };
    proof {
        crate::text::lemma_find_char(rest@, '(');
        crate::text::lemma_find_char(rest@, ')');
    }
    if pe < pb + 1 {
        return Err(ParseError::UnmatchedParens);
    }
    if pb < 4 {
        return Err(ParseError::ShortName);
    }
    let native = rest.substring_char(0, pb - 1).to_owned();
    proof {
        assert(native@ =~= rest@.take(pb - 1));
    }
    let nlen = native.as_str().unicode_len();
    let wrapper = crate::text::lower_first(native.as_str().substring_char(2, nlen));
    proof {
        assert(native@.subrange(2, nlen as int)[0] == native@[2]);
        assert(native@.subrange(2, nlen as int).skip(1) =~= native@.skip(3));
        assert(wrapper@ =~= seq![lower_char(native@[2])] + native@.skip(3));
    }
    let raw = crate::text::split_str(rest.substring_char(pb + 1, pe), ',');
    let ghost raw_view = raw.deep_view();
    proof {
        assert(raw_view == split_char(rest@.subrange(pb + 1, pe as int), ','));
    }
    let mut parameters: Vec<String> = Vec::new();
    let mut parameter_names: Vec<String> = Vec::new();
    let mut i: usize = 0;
    proof {
        assert(raw_view.skip(0) =~~= raw_view);
        assert(parameters.deep_view() =~~= Seq::<Seq<char>>::empty());
        assert(parameter_names.deep_view() =~~= Seq::<Seq<char>>::empty());
    }
    while i < raw.len()
        invariant
            raw_view == raw.deep_view(),
            0 <= i <= raw.len(),
            match parse_params(raw_view.skip(i as int)) {
                Ok(rest_pn) => parse_params(raw_view) == Ok::<_, ParseError>(
                    (
                        parameters.deep_view() + rest_pn.0,
                        parameter_names.deep_view() + rest_pn.1,
                    ),
                ),
                Err(e) => parse_params(raw_view) == Err::<(Seq<Seq<char>>, Seq<Seq<char>>),
                    ParseError,
                >(e),
            },
        decreases raw.len() - i,
    {
        let p = crate::text::trim_str(raw[i].as_str());
        proof {
            assert(raw_view.skip(i as int)[0] == raw_view[i as int]);
            assert(raw_view[i as int] == raw@[i as int]@);
            assert(raw_view.skip(i as int).skip(1) =~~= raw_view.skip(i as int + 1));
        }
        match crate::text::rfind_char_str(p.as_str(), ' ') {
            None => {
                if crate::text::str_eq(p.as_str(), "void") {
                    let ghost old_params = parameters.deep_view();
                    parameters.push(p);
                    proof {
                        assert(parameters.deep_view() =~~= old_params + seq![trim_blanks(
                            raw_view[i as int],
                        )]);
                        if parse_params(raw_view.skip(i as int + 1)) is Ok {
                            let rest_pn = parse_params(raw_view.skip(i as int + 1)).unwrap();
                            assert(old_params + (seq![trim_blanks(raw_view[i as int])] + rest_pn.0)
                                =~~= parameters.deep_view() + rest_pn.0);
                        }
                    }
                } else {
                    return Err(ParseError::BadParameter);
                }
            },
            Some(ix) => {
                proof {
                    crate::text::lemma_rfind_char(p@, ' ');
                }
                let plen = p.as_str().unicode_len();
                let tail = p.as_str().substring_char(ix + 1, plen);
                proof {
                    assert(tail@ =~= p@.skip(ix as int + 1));
                }
                let name: String = match crate::text::rfind_char_str(tail, '*') {
                    Some(j) => {
                        proof {
                            crate::text::lemma_rfind_char(tail@, '*');
                        }
                        let tlen = tail.unicode_len();
                        let nm = tail.substring_char(j + 1, tlen).to_owned();
                        proof {
                            assert(nm@ =~= tail@.skip(j as int + 1));
                        }
                        nm
                    },
                    None => tail.to_owned(),
                };
                // A declaration with a blank in it is not the bare marker.
                proof {
                    assert(p@[ix as int] == ' ');
                    assert(p@ != "void"@) by {
                        reveal_strlit("void");
                        if p@ == "void"@ {
                            assert("void"@[ix as int] == ' ');
                        }
                    }
                }
                let ghost old_params = parameters.deep_view();
                let ghost old_names = parameter_names.deep_view();
                parameters.push(p);
                parameter_names.push(name);
                proof {
                    assert(parameters.deep_view() =~~= old_params + seq![trim_blanks(
                        raw_view[i as int],
                    )]);
                    assert(parameter_names.deep_view() =~~= old_names + seq![name@]);
                    if parse_params(raw_view.skip(i as int + 1)) is Ok {
                        let rest_pn = parse_params(raw_view.skip(i as int + 1)).unwrap();
                        assert(old_params + (seq![trim_blanks(raw_view[i as int])] + rest_pn.0)
                            =~~= parameters.deep_view() + rest_pn.0);
                        assert(old_names + (seq![name@] + rest_pn.1) =~~= parameter_names.deep_view()
                            + rest_pn.1);
                    }
                }
            },
        }
        i = i + 1;
    }
    proof {
        assert(raw_view.skip(raw.len() as int) =~~= Seq::<Seq<char>>::empty());
        let pn = parse_params(raw_view).unwrap();
        assert(pn.0 =~~= parameters.deep_view());
        assert(pn.1 =~~= parameter_names.deep_view());
    }
    let result = ParsedPrototype {
        return_type,
        native_name: native,
        wrapper_name: wrapper,
        parameters,
        parameter_names,
    };
    proof {
        lemma_parse_wf(line@);
    }
    Ok(result)
}

} // verus!
