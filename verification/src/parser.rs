//! Parser for the small declarative rule language of the client's
//! stylesheets.
//!
//! The grammar is line oriented: `selector[, selector] { property: value; ...
//! }`.  A line ending in `{` opens a rule set for one or more comma-separated
//! selectors; a line ending in `}` closes it; every other non-empty,
//! non-comment line must be a declaration with exactly one `:`.  A closing
//! brace without an open rule set, a malformed declaration line, or a rule
//! set still open at the end of the sheet aborts the whole sheet with a
//! [`ParseError`].
//!
//! Re-declaring a selector yields a further [`Rule`] with the same selector;
//! the rule store merges such rules property by property, later declarations
//! winning (see the style resolver).

use vstd::prelude::*;

use crate::text::{
    spec_is_comment_line, spec_split, spec_strip_trailing, spec_trim, spec_trim_each, split_char,
    strip_trailing, trim,
};

verus! {

/// One parsed rule: a single selector and its declarations in authored order.
#[derive(Debug, PartialEq)]
pub struct Rule {
    pub selector: String,
    pub properties: Vec<(String, String)>,
}

/// Mathematical model of a [`Rule`].
#[verifier::ext_equal]
pub struct RuleModel {
    pub selector: Seq<char>,
    pub properties: Seq<(Seq<char>, Seq<char>)>,
}

impl View for Rule {
    type V = RuleModel;

    open spec fn view(&self) -> RuleModel {
        RuleModel { selector: self.selector@, properties: self.properties.deep_view() }
    }
}

impl DeepView for Rule {
    type V = RuleModel;

    open spec fn deep_view(&self) -> RuleModel {
        self@
    }
}

/// Error aborting a whole sheet.
#[derive(Debug)]
pub struct ParseError {
    message: String,
}

impl ParseError {
    pub fn message(&self) -> &String {
        &self.message
    }
}

/// The selectors named by a trimmed line that ends in `{`: trailing braces
/// dropped, the remainder split on commas, each selector trimmed.
pub open spec fn spec_selectors(l: Seq<char>) -> Seq<Seq<char>> {
    spec_trim_each(spec_split(spec_trim(spec_strip_trailing(l, '{')), ','))
}

/// A trimmed declaration line: exactly one `:`, the property trimmed, the
/// value with trailing semicolons dropped and trimmed.
pub open spec fn spec_declaration(l: Seq<char>) -> Option<(Seq<char>, Seq<char>)> {
    let parts = spec_split(l, ':');
    if parts.len() != 2 {
        None
    } else {
        Some((spec_trim(parts[0]), spec_trim(spec_strip_trailing(parts[1], ';'))))
    }
}

/// Closing a rule set: one rule per selector, all sharing the declarations.
pub open spec fn spec_commit(
    sels: Seq<Seq<char>>,
    decls: Seq<(Seq<char>, Seq<char>)>,
) -> Seq<RuleModel> {
    Seq::new(sels.len(), |i: int| RuleModel { selector: sels[i], properties: decls })
}

/// The parse of a sheet, one line at a time.  `open_block` carries the
/// selectors and declarations of a rule set whose `{` has been seen but whose
/// `}` has not; `acc` the rules committed so far.  `None` is a parse error.
pub open spec fn spec_parse_lines(
    lines: Seq<Seq<char>>,
    open_block: Option<(Seq<Seq<char>>, Seq<(Seq<char>, Seq<char>)>)>,
    acc: Seq<RuleModel>,
) -> Option<Seq<RuleModel>>
    decreases lines.len(),
{
    if lines.len() == 0 {
        if open_block is Some {
            None
        } else {
            Some(acc)
        }
    } else {
        let l = spec_trim(lines[0]);
        let rest = lines.skip(1);
        if l.len() == 0 || spec_is_comment_line(l) {
            spec_parse_lines(rest, open_block, acc)
        } else if l[l.len() - 1] == '{' {
            spec_parse_lines(rest, Some((spec_selectors(l), Seq::empty())), acc)
        } else if l[l.len() - 1] == '}' {
            match open_block {
                None => None,
                Some((sels, decls)) => spec_parse_lines(rest, None, acc + spec_commit(sels, decls)),
            }
        } else {
            match spec_declaration(l) {
                None => None,
                Some(d) => match open_block {
                    None => spec_parse_lines(rest, None, acc),
                    Some((sels, decls)) => spec_parse_lines(
                        rest,
                        Some((sels, decls.push(d))),
                        acc,
                    ),
                },
            }
        }
    }
}

/// The parse of a whole sheet.
pub open spec fn spec_parse(s: Seq<char>) -> Option<Seq<RuleModel>> {
    spec_parse_lines(spec_split(s, '\n'), None, Seq::empty())
}

/// Wraps the parser state of the executable loop into the model state.
pub open spec fn spec_state(
    open_sels: Option<Seq<Seq<char>>>,
    decls: Seq<(Seq<char>, Seq<char>)>,
) -> Option<(Seq<Seq<char>>, Seq<(Seq<char>, Seq<char>)>)> {
    match open_sels {
        None => None,
        Some(s) => Some((s, decls)),
    }
}

/// True when the trimmed line is wholly a `/* ... */` comment.
fn is_comment_line(l: &str) -> (r: bool)
    ensures
        r == spec_is_comment_line(l@),
{
    let len = l.unicode_len();
    if len < 2 {
        return false;
    }
    l.get_char(0) == '/' && l.get_char(1) == '*' && l.get_char(len - 2) == '*' && l.get_char(
        len - 1,
    ) == '/'
}

fn parse_error() -> ParseError {
    ParseError { message: String::from_str("Closing brace without opening selector") }
}

/// Parses a whole sheet into its rules, in authored order.
///
/// Succeeds exactly on the sheets that [`spec_parse`] accepts, and then
/// returns exactly the rules it yields.
pub fn parse(input: &str) -> (r: Result<Vec<Rule>, ParseError>)
    ensures
        match r {
            Ok(rules) => Some(rules.deep_view()) == spec_parse(input@),
            Err(_) => spec_parse(input@) is None,
        },
{
    let lines = split_char(input, '\n');
    let ghost lines_v = lines.deep_view();
    let mut out: Vec<Rule> = Vec::new();
    let mut open_sels: Option<Vec<String>> = None;
    let mut decls: Vec<(String, String)> = Vec::new();
    let mut i: usize = 0;
    proof {
        assert(lines_v.skip(0) =~= lines_v);
        assert(out.deep_view() =~= Seq::<RuleModel>::empty());
        assert(decls.deep_view() =~= Seq::<(Seq<char>, Seq<char>)>::empty());
    }
    while i < lines.len()
        invariant
            lines.deep_view() == lines_v,
            lines_v == spec_split(input@, '\n'),
            i <= lines.len(),
            spec_parse(input@) == spec_parse_lines(
                lines_v.skip(i as int),
                spec_state(open_sels.deep_view(), decls.deep_view()),
                out.deep_view(),
            ),
        decreases lines.len() - i,
    {
        proof {
            assert(lines_v.skip(i as int)[0] == lines_v[i as int]);
            assert(lines_v.skip(i as int).skip(1) =~= lines_v.skip(i as int + 1));
        }
        let line = trim(lines[i].as_str());
        let llen = line.unicode_len();
        if llen == 0 || is_comment_line(line) {
            i = i + 1;
            continue ;
        }
        let last = line.get_char(llen - 1);
        if last == '{' {
            let sel_text = trim(strip_trailing(line, '{'));
            let parts = split_char(sel_text, ',');
            let mut sels: Vec<String> = Vec::new();
            let mut j: usize = 0;
            while j < parts.len()
                invariant
                    j <= parts.len(),
                    sels.deep_view() =~~= spec_trim_each(parts.deep_view().take(j as int)),
                decreases parts.len() - j,
            {
                let s_new = trim(parts[j].as_str()).to_owned();
                let ghost sels_before = sels.deep_view();
                proof {
                    assert(parts.deep_view()[j as int] == parts@[j as int]@);
                    assert(s_new@ == spec_trim(parts.deep_view()[j as int]));
                    assert(sels_before == spec_trim_each(parts.deep_view().take(j as int)));
                    assert(sels_before.len() == j as int);
                    assert(sels@.len() == j);
                }
                sels.push(s_new);
                proof {
                    let target = spec_trim_each(parts.deep_view().take(j as int + 1));
                    assert(sels.deep_view().len() == j + 1);
                    assert(target.len() == j + 1);
                    assert forall|k: int| 0 <= k < j + 1 implies sels.deep_view()[k]
                        == target[k] by {
                        assert(parts.deep_view().take(j as int + 1)[k] == parts.deep_view()[k]);
                        assert(target[k] == spec_trim(parts.deep_view()[k]));
                        if k < j {
                            assert(sels.deep_view()[k] == sels_before[k]);
                            assert(sels_before[k] == spec_trim(
                                parts.deep_view().take(j as int)[k],
                            ));
                        } else {
                            assert(sels.deep_view()[k] == s_new@);
                        }
                    }
                    assert(sels.deep_view() =~= target);
                }
                j = j + 1;
            }
            proof {
                assert(parts.deep_view().take(parts.len() as int) =~= parts.deep_view());
                assert(sels.deep_view() =~~= spec_selectors(spec_trim(lines_v[i as int])));
            }
            open_sels = Some(sels);
            decls = Vec::new();
            proof {
                assert(decls.deep_view() =~= Seq::<(Seq<char>, Seq<char>)>::empty());
            }
            i = i + 1;
        } else if last == '}' {
            match open_sels {
                None => {
                    return Err(parse_error());
                },
                Some(sels) => {
                    let ghost commit = spec_commit(sels.deep_view(), decls.deep_view());
                    let ghost out0 = out.deep_view();
                    let mut j: usize = 0;
                    while j < sels.len()
                        invariant
                            j <= sels.len(),
                            commit == spec_commit(sels.deep_view(), decls.deep_view()),
                            out.deep_view() =~~= out0 + commit.take(j as int),
                        decreases sels.len() - j,
                    {
                        let properties = clone_declarations(&decls);
                        let rule = Rule { selector: sels[j].clone(), properties };
                        let ghost out_before = out.deep_view();
                        proof {
                            assert(rule@ =~~= commit[j as int]);
                            assert(out_before == out0 + commit.take(j as int));
                            assert(out_before.len() == out0.len() + j as int);
                            assert(out@.len() == out_before.len());
                        }
                        out.push(rule);
                        proof {
                            let target = out0 + commit.take(j as int + 1);
                            assert(out.deep_view().len() == out_before.len() + 1);
                            assert(target.len() == out_before.len() + 1);
                            assert forall|k: int| 0 <= k < out.deep_view().len() implies out
                                .deep_view()[k] == target[k] by {
                                if k < out0.len() {
                                    assert(out.deep_view()[k] == out_before[k]);
                                    assert(target[k] == out0[k]);
                                    assert(out_before[k] == (out0 + commit.take(j as int))[k]);
                                } else if k < out_before.len() {
                                    assert(out.deep_view()[k] == out_before[k]);
                                    assert(out_before[k] == commit.take(j as int)[k - out0.len()]);
                                    assert(target[k] == commit.take(j as int + 1)[k - out0.len()]);
                                } else {
                                    assert(out.deep_view()[k] == rule@);
                                    assert(target[k] == commit[j as int]);
                                }
                            }
                            assert(out.deep_view() =~= target);
                        }
                        j = j + 1;
                    }
                    proof {
                        assert(commit.take(sels.len() as int) =~= commit);
                        assert(out.deep_view() =~~= out0 + commit);
                    }
                    open_sels = None;
                    decls = Vec::new();
                },
            }
            i = i + 1;
        } else {
            let parts = split_char(line, ':');
            if parts.len() != 2 {
                return Err(parse_error());
            }
            let prop = trim(parts[0].as_str()).to_owned();
            let value = trim(strip_trailing(parts[1].as_str(), ';')).to_owned();
            if open_sels.is_some() {
                let ghost decls0 = decls.deep_view();
                decls.push((prop, value));
                proof {
                    assert(decls.deep_view() =~~= decls0.push(
                        (
                            spec_trim(spec_split(spec_trim(lines_v[i as int]), ':')[0]),
                            spec_trim(
                                spec_strip_trailing(
                                    spec_split(spec_trim(lines_v[i as int]), ':')[1],
                                    ';',
                                ),
                            ),
                        ),
                    ));
                }
            }
            i = i + 1;
        }
    }
    proof {
        assert(lines_v.skip(lines.len() as int) =~= Seq::<Seq<char>>::empty());
    }
    if open_sels.is_some() {
        return Err(parse_error());
    }
    Ok(out)
}

/// Copies a declaration list, value for value.
fn clone_declarations(v: &Vec<(String, String)>) -> (r: Vec<(String, String)>)
    ensures
        r.deep_view() == v.deep_view(),
{
    let mut r: Vec<(String, String)> = Vec::new();
    let mut j: usize = 0;
    while j < v.len()
        invariant
            j <= v.len(),
            r.deep_view() =~~= v.deep_view().take(j as int),
        decreases v.len() - j,
    {
        let x = (v[j].0.clone(), v[j].1.clone());
        proof {
            assert(x.0 == v@[j as int].0);
            assert(x.1 == v@[j as int].1);
            assert(x.deep_view() == v@[j as int].deep_view());
        }
        let ghost r_before = r.deep_view();
        proof {
            assert(r_before == v.deep_view().take(j as int));
            assert(v.deep_view().len() == v@.len());
            assert(j <= v@.len());
            assert(r_before.len() == j as int);
            assert(r.deep_view().len() == r@.len());
            assert(r@.len() == j);
        }
        r.push(x);
        proof {
            assert(r@.len() == j + 1);
            assert(forall|k: int| 0 <= k < j ==> r.deep_view()[k] == r_before[k]);
            assert(r.deep_view()[j as int] == v@[j as int].deep_view());
            assert(r.deep_view() =~~= v.deep_view().take(j as int + 1));
        }
        j = j + 1;
    }
    proof {
        assert(r.deep_view() =~~= v.deep_view());
    }
    r
}

} // verus!
