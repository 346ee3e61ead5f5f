use vstd::prelude::*;
use crate::ast::{StatementModel, Statements, Value, ValueModel, statements_model, values_model};
use crate::error::{ErrorModel, ParseError, StructuralError, StructuralKind};
use crate::literal::{is_word, literal_spec, parse_literal, trim, trimmed};
use crate::markup::read_markup;
use crate::markup::{Attribute, EventModel, MarkupEvent, events_model, markup_events};

verus! {

pub open spec fn word_call() -> Seq<char> {
    seq!['c', 'a', 'l', 'l']
}

pub open spec fn word_arg() -> Seq<char> {
    seq!['a', 'r', 'g']
}

pub open spec fn word_define() -> Seq<char> {
    seq!['d', 'e', 'f', 'i', 'n', 'e']
}

pub open spec fn word_name() -> Seq<char> {
    seq!['n', 'a', 'm', 'e']
}

pub open spec fn grammar_error(kind: StructuralKind, element: Seq<char>) -> ErrorModel {
    ErrorModel::Grammar(kind, element)
}

/// The value of the one attribute, where an element has exactly one and it
/// is `name`.
pub open spec fn name_attribute(attrs: Seq<(Seq<char>, Seq<char>)>) -> Option<Seq<char>> {
    if attrs.len() == 1 && attrs[0].0 == word_name() {
        Some(attrs[0].1)
    } else {
        None
    }
}

/// The event at `k` must close the element `tag`; `v` is what it held.
pub open spec fn close_spec(evs: Seq<EventModel>, k: int, tag: Seq<char>, v: ValueModel) -> Result<(ValueModel, int), ErrorModel> {
    if 0 <= k < evs.len() {
        match evs[k] {
            EventModel::EndElement { name } => if name == tag {
                Ok((v, k + 1))
            } else {
                Err(grammar_error(StructuralKind::Malformed, name))
            },
            EventModel::SyntaxError(m) => Err(ErrorModel::XmlSyntax(m)),
            _ => Err(grammar_error(StructuralKind::Malformed, tag)),
        }
    } else {
        Err(grammar_error(StructuralKind::UnexpectedEnd, tag))
    }
}

/// A `call` element that opens at `at`: its name, its arguments, and the
/// position after its close.
pub open spec fn call_spec(evs: Seq<EventModel>, at: int) -> Result<(Seq<char>, Seq<ValueModel>, int), ErrorModel>
    decreases evs.len() - at, 0int,
{
    if 0 <= at < evs.len() {
        match evs[at] {
            EventModel::StartElement { name, attributes } => if name == word_call() {
                match name_attribute(attributes) {
                    Some(n) => call_args_spec(evs, at + 1, n, Seq::empty()),
                    None => Err(grammar_error(StructuralKind::Attribute, word_call())),
                }
            } else {
                Err(grammar_error(StructuralKind::UnexpectedElement, name))
            },
            EventModel::SyntaxError(m) => Err(ErrorModel::XmlSyntax(m)),
            _ => Err(grammar_error(StructuralKind::UnexpectedElement, word_call())),
        }
    } else {
        Err(grammar_error(StructuralKind::UnexpectedEnd, word_call()))
    }
}

/// The rest of a call named `name` from `i` on, `args` read so far: `arg`
/// elements until the close of the call; other events are passed over.
pub open spec fn call_args_spec(evs: Seq<EventModel>, i: int, name: Seq<char>, args: Seq<ValueModel>) -> Result<(Seq<char>, Seq<ValueModel>, int), ErrorModel>
    decreases evs.len() - i, 1int,
{
    if 0 <= i < evs.len() {
        match evs[i] {
            EventModel::StartElement { name: n, attributes } => if n == word_arg() {
                match arg_spec(evs, i) {
                    Ok((v, j)) => if i < j <= evs.len() {
                        call_args_spec(evs, j, name, args.push(v))
                    } else {
                        Err(grammar_error(StructuralKind::UnexpectedEnd, word_call()))
                    },
                    Err(e) => Err(e),
                }
            } else {
                Err(grammar_error(StructuralKind::UnexpectedElement, n))
            },
            EventModel::EndElement { name: n } => if n == word_call() {
                Ok((name, args, i + 1))
            } else {
                Err(grammar_error(StructuralKind::Malformed, n))
            },
            EventModel::SyntaxError(m) => Err(ErrorModel::XmlSyntax(m)),
            EventModel::EndDocument => Err(grammar_error(StructuralKind::UnexpectedEnd, word_call())),
            _ => call_args_spec(evs, i + 1, name, args),
        }
    } else {
        Err(grammar_error(StructuralKind::UnexpectedEnd, word_call()))
    }
}

/// An `arg` element that opens at `at`: one literal or one nested call,
/// then the close of the arg.
pub open spec fn arg_spec(evs: Seq<EventModel>, at: int) -> Result<(ValueModel, int), ErrorModel>
    decreases evs.len() - at, 0int,
{
    if 0 <= at && at + 1 < evs.len() {
        match evs[at + 1] {
            EventModel::Characters(t) => match literal_spec(t) {
                Some(v) => close_spec(evs, at + 2, word_arg(), v),
                None => Err(ErrorModel::Literal(t)),
            },
            EventModel::StartElement { name, attributes } => if name == word_call() {
                match call_spec(evs, at + 1) {
                    Ok((n, args, j)) => close_spec(evs, j, word_arg(), ValueModel::Call { name: n, args }),
                    Err(e) => Err(e),
                }
            } else {
                Err(grammar_error(StructuralKind::UnexpectedElement, name))
            },
            EventModel::SyntaxError(m) => Err(ErrorModel::XmlSyntax(m)),
            _ => Err(grammar_error(StructuralKind::ExpectedLiteral, word_arg())),
        }
    } else {
        Err(grammar_error(StructuralKind::UnexpectedEnd, word_arg()))
    }
}

/// A `define` element that opens at `at`: its name, one literal, its close.
pub open spec fn define_spec(evs: Seq<EventModel>, at: int) -> Result<(StatementModel, int), ErrorModel> {
    if 0 <= at && at + 1 < evs.len() {
        match evs[at] {
            EventModel::StartElement { name, attributes } => match name_attribute(attributes) {
                Some(n) => match evs[at + 1] {
                    EventModel::Characters(t) => match literal_spec(t) {
                        Some(v) => match close_spec(evs, at + 2, word_define(), v) {
                            Ok((v2, j)) => Ok((StatementModel::Define { name: n, value: v2 }, j)),
                            Err(e) => Err(e),
                        },
                        None => Err(ErrorModel::Literal(t)),
                    },
                    EventModel::SyntaxError(m) => Err(ErrorModel::XmlSyntax(m)),
                    _ => Err(grammar_error(StructuralKind::ExpectedLiteral, word_define())),
                },
                None => Err(grammar_error(StructuralKind::Attribute, word_define())),
            },
            _ => Err(grammar_error(StructuralKind::UnexpectedElement, word_define())),
        }
    } else {
        Err(grammar_error(StructuralKind::UnexpectedEnd, word_define()))
    }
}

/// The top level from `i` on, `acc` read so far: `define` and `call`
/// elements until the end of the document.
pub open spec fn top_spec(evs: Seq<EventModel>, i: int, acc: Seq<StatementModel>) -> Result<Seq<StatementModel>, ErrorModel>
    decreases evs.len() - i,
{
    if 0 <= i < evs.len() {
        match evs[i] {
            EventModel::StartDocument => top_spec(evs, i + 1, acc),
            EventModel::Other => top_spec(evs, i + 1, acc),
            EventModel::EndDocument => Ok(acc),
            EventModel::SyntaxError(m) => Err(ErrorModel::XmlSyntax(m)),
            EventModel::Characters(t) => Err(grammar_error(StructuralKind::UnexpectedText, t)),
            EventModel::EndElement { name } => Err(grammar_error(StructuralKind::UnmatchedClose, name)),
            EventModel::StartElement { name, attributes } => if name == word_define() {
                match define_spec(evs, i) {
                    Ok((st, j)) => if i < j <= evs.len() {
                        top_spec(evs, j, acc.push(st))
                    } else {
                        Err(grammar_error(StructuralKind::UnexpectedEnd, word_define()))
                    },
                    Err(e) => Err(e),
                }
            } else if name == word_call() {
                match call_spec(evs, i) {
                    Ok((n, args, j)) => if i < j <= evs.len() {
                        top_spec(evs, j, acc.push(StatementModel::Call { name: n, args }))
                    } else {
                        Err(grammar_error(StructuralKind::UnexpectedEnd, word_call()))
                    },
                    Err(e) => Err(e),
                }
            } else {
                Err(grammar_error(StructuralKind::UnsupportedElement, name))
            },
        }
    } else {
        Err(grammar_error(StructuralKind::UnexpectedEnd, Seq::empty()))
    }
}

/// The statements of a whole sequence of events.
pub open spec fn document_spec(evs: Seq<EventModel>) -> Result<Seq<StatementModel>, ErrorModel> {
    top_spec(evs, 0, Seq::empty())
}

/// The statements of a text: none where it is empty or only whitespace,
/// else those of the events that the markup tokenizer makes of it.
pub open spec fn text_spec(text: Seq<char>) -> Result<Seq<StatementModel>, ErrorModel> {
    if trimmed(text).len() == 0 {
        Ok(Seq::empty())
    } else {
        document_spec(markup_events(text))
    }
}

/// The model of what a parse returns.
pub open spec fn outcome_model(r: Result<Vec<Statements>, ParseError>) -> Result<Seq<StatementModel>, ErrorModel> {
    match r {
        Ok(st) => Ok(statements_model(st@)),
        Err(e) => Err(e.model()),
    }
}

proof fn lemma_words()
    ensures
        "call"@ == word_call(),
        "arg"@ == word_arg(),
        "define"@ == word_define(),
        "name"@ == word_name(),
        ""@ == Seq::<char>::empty(),
{
    reveal_strlit("call");
    reveal_strlit("arg");
    reveal_strlit("define");
    reveal_strlit("name");
    reveal_strlit("");
}

/// A grammar error about `element`.
fn grammar(kind: StructuralKind, element: &str) -> (r: ParseError)
    ensures
        r.model() == grammar_error(kind, element@),
{
    ParseError::Grammar(StructuralError { kind, element: element.to_owned() })
}

/// The value of the `name` attribute, where it is the element's only one.
fn read_name(attrs: &Vec<Attribute>) -> (r: Option<String>)
    ensures
        match r {
            Some(n) => name_attribute(attrs@.map_values(|a: Attribute| a.model())) == Some(n@),
            None => name_attribute(attrs@.map_values(|a: Attribute| a.model())) is None,
        },
{
    proof {
        lemma_words();
    }
    if attrs.len() == 1 && is_word(attrs[0].name.as_str(), "name") {
        Some(attrs[0].value.clone())
    } else {
        None
    }
}

/// Checks that the event at `k` closes `tag`, and hands `v` on.
fn expect_close(events: &Vec<MarkupEvent>, k: usize, tag: &str, v: Value) -> (r: Result<(Value, usize), ParseError>)
    ensures
        match r {
            Ok((w, j)) => close_spec(events_model(events@), k as int, tag@, v.model()) == Ok::<(ValueModel, int), ErrorModel>((w.model(), j as int))
                && j == k + 1 && j <= events@.len(),
            Err(e) => close_spec(events_model(events@), k as int, tag@, v.model()) == Err::<(ValueModel, int), ErrorModel>(e.model()),
        },
{
    if k < events.len() {
        match &events[k] {
            MarkupEvent::EndElement { name } => {
                if is_word(name.as_str(), tag) {
                    Ok((v, k + 1))
                } else {
                    Err(grammar(StructuralKind::Malformed, name.as_str()))
                }
            },
            MarkupEvent::SyntaxError(m) => Err(ParseError::XmlSyntax(m.clone())),
            _ => Err(grammar(StructuralKind::Malformed, tag)),
        }
    } else {
        Err(grammar(StructuralKind::UnexpectedEnd, tag))
    }
}

/// Reads the `call` element that opens at `at`: its name attribute, then
/// its `arg` elements up to its close. Returns the name, the arguments and
/// the position after the close.
pub fn parse_call(events: &Vec<MarkupEvent>, at: usize) -> (r: Result<(String, Vec<Value>, usize), ParseError>)
    ensures
        match r {
            Ok((name, args, j)) => call_spec(events_model(events@), at as int) == Ok::<(Seq<char>, Seq<ValueModel>, int), ErrorModel>((name@, values_model(args@), j as int))
                && at < j <= events@.len(),
            Err(e) => call_spec(events_model(events@), at as int) == Err::<(Seq<char>, Seq<ValueModel>, int), ErrorModel>(e.model()),
        },
    decreases events@.len() - at,
{
    let ghost evs = events_model(events@);
    proof {
        lemma_words();
    }
    if at >= events.len() {
        return Err(grammar(StructuralKind::UnexpectedEnd, "call"));
    }
    let name = match &events[at] {
        MarkupEvent::StartElement { name, attributes } => {
            if !is_word(name.as_str(), "call") {
                return Err(grammar(StructuralKind::UnexpectedElement, name.as_str()));
            }
            match read_name(attributes) {
                Some(n) => n,
                None => {
                    return Err(grammar(StructuralKind::Attribute, "call"));
                },
            }
        },
        MarkupEvent::SyntaxError(m) => {
            return Err(ParseError::XmlSyntax(m.clone()));
        },
        _ => {
            return Err(grammar(StructuralKind::UnexpectedElement, "call"));
        },
    };
    let mut args: Vec<Value> = Vec::new();
    let mut i = at + 1;
    while i < events.len()
        invariant
            evs == events_model(events@),
            at < i <= events@.len(),
            call_spec(evs, at as int) == call_args_spec(evs, i as int, name@, values_model(args@)),
        decreases events@.len() - i,
    {
        proof {
            lemma_words();
        }
        match &events[i] {
            MarkupEvent::StartElement { name: n, attributes: _ } => {
                if !is_word(n.as_str(), "arg") {
                    return Err(grammar(StructuralKind::UnexpectedElement, n.as_str()));
                }
                match parse_arg(events, i) {
                    Ok((v, j)) => {
                        let ghost prev = args@;
                        args.push(v);
                        proof {
                            assert(args@.drop_last() == prev);
                        }
                        i = j;
                    },
                    Err(e) => {
                        return Err(e);
                    },
                }
            },
            MarkupEvent::EndElement { name: n } => {
                if is_word(n.as_str(), "call") {
                    return Ok((name, args, i + 1));
                }
                return Err(grammar(StructuralKind::Malformed, n.as_str()));
            },
            MarkupEvent::SyntaxError(m) => {
                return Err(ParseError::XmlSyntax(m.clone()));
            },
            MarkupEvent::EndDocument => {
                return Err(grammar(StructuralKind::UnexpectedEnd, "call"));
            },
            _ => {
                i += 1;
            },
        }
    }
    Err(grammar(StructuralKind::UnexpectedEnd, "call"))
}

/// Reads the `arg` element that opens at `at`: one literal or one nested
/// call, then the close of the arg. Returns the value and the position
/// after the close.
pub fn parse_arg(events: &Vec<MarkupEvent>, at: usize) -> (r: Result<(Value, usize), ParseError>)
    ensures
        match r {
            Ok((v, j)) => arg_spec(events_model(events@), at as int) == Ok::<(ValueModel, int), ErrorModel>((v.model(), j as int)) && at < j <= events@.len(),
            Err(e) => arg_spec(events_model(events@), at as int) == Err::<(ValueModel, int), ErrorModel>(e.model()),
        },
    decreases events@.len() - at,
{
    proof {
        lemma_words();
    }
    if at >= events.len() || events.len() - at < 2 {
        return Err(grammar(StructuralKind::UnexpectedEnd, "arg"));
    }
    match &events[at + 1] {
        MarkupEvent::Characters(t) => match parse_literal(t.as_str()) {
            Ok(v) => expect_close(events, at + 2, "arg", v),
            Err(e) => Err(ParseError::Literal(e)),
        },
        MarkupEvent::StartElement { name, attributes: _ } => {
            if !is_word(name.as_str(), "call") {
                return Err(grammar(StructuralKind::UnexpectedElement, name.as_str()));
            }
            match parse_call(events, at + 1) {
                Ok((n, args, j)) => expect_close(events, j, "arg", Value::Call { name: n, args }),
                Err(e) => Err(e),
            }
        },
        MarkupEvent::SyntaxError(m) => Err(ParseError::XmlSyntax(m.clone())),
        _ => Err(grammar(StructuralKind::ExpectedLiteral, "arg")),
    }
}

/// Reads the `define` element that opens at `at`: its name attribute, one
/// literal, its close.
fn parse_define(events: &Vec<MarkupEvent>, at: usize) -> (r: Result<(Statements, usize), ParseError>)
    ensures
        match r {
            Ok((st, j)) => define_spec(events_model(events@), at as int) == Ok::<(StatementModel, int), ErrorModel>((st.model(), j as int)) && at < j <= events@.len(),
            Err(e) => define_spec(events_model(events@), at as int) == Err::<(StatementModel, int), ErrorModel>(e.model()),
        },
{
    proof {
        lemma_words();
    }
    if at >= events.len() || events.len() - at < 2 {
        return Err(grammar(StructuralKind::UnexpectedEnd, "define"));
    }
    let name = match &events[at] {
        MarkupEvent::StartElement { name: _, attributes } => match read_name(attributes) {
            Some(n) => n,
            None => {
                return Err(grammar(StructuralKind::Attribute, "define"));
            },
        },
        _ => {
            return Err(grammar(StructuralKind::UnexpectedElement, "define"));
        },
    };
    match &events[at + 1] {
        MarkupEvent::Characters(t) => match parse_literal(t.as_str()) {
            Ok(v) => match expect_close(events, at + 2, "define", v) {
                Ok((value, j)) => Ok((Statements::Define { name, value }, j)),
                Err(e) => Err(e),
            },
            Err(e) => Err(ParseError::Literal(e)),
        },
        MarkupEvent::SyntaxError(m) => Err(ParseError::XmlSyntax(m.clone())),
        _ => Err(grammar(StructuralKind::ExpectedLiteral, "define")),
    }
}

/// Reads a whole sequence of markup events: `define` and `call` elements at
/// the top level, up to the end of the document.
pub fn parse_events(events: &Vec<MarkupEvent>) -> (r: Result<Vec<Statements>, ParseError>)
    ensures
        outcome_model(r) == document_spec(events_model(events@)),
{
    let ghost evs = events_model(events@);
    proof {
        lemma_words();
        assert(statements_model(Seq::<Statements>::empty()) == Seq::<StatementModel>::empty());
    }
    let mut statements: Vec<Statements> = Vec::new();
    let mut i: usize = 0;
    while i < events.len()
        invariant
            evs == events_model(events@),
            i <= events@.len(),
            document_spec(evs) == top_spec(evs, i as int, statements_model(statements@)),
        decreases events@.len() - i,
    {
        proof {
            lemma_words();
        }
        match &events[i] {
            MarkupEvent::StartDocument => {
                i += 1;
            },
            MarkupEvent::Other => {
                i += 1;
            },
            MarkupEvent::EndDocument => {
                return Ok(statements);
            },
            MarkupEvent::SyntaxError(m) => {
                return Err(ParseError::XmlSyntax(m.clone()));
            },
            MarkupEvent::Characters(t) => {
                return Err(grammar(StructuralKind::UnexpectedText, t.as_str()));
            },
            MarkupEvent::EndElement { name } => {
                return Err(grammar(StructuralKind::UnmatchedClose, name.as_str()));
            },
            MarkupEvent::StartElement { name, attributes: _ } => {
                let ghost prev = statements@;
                if is_word(name.as_str(), "define") {
                    match parse_define(events, i) {
                        Ok((st, j)) => {
                            statements.push(st);
                            i = j;
                        },
                        Err(e) => {
                            return Err(e);
                        },
                    }
                } else if is_word(name.as_str(), "call") {
                    match parse_call(events, i) {
                        Ok((n, args, j)) => {
                            statements.push(Statements::Call { name: n, args });
                            i = j;
                        },
                        Err(e) => {
                            return Err(e);
                        },
                    }
                } else {
                    return Err(grammar(StructuralKind::UnsupportedElement, name.as_str()));
                }
                proof {
                    assert(statements_model(statements@) == statements_model(prev).push(statements@.last().model()));
                }
            },
        }
    }
    Err(grammar(StructuralKind::UnexpectedEnd, ""))
}

/// Parses a document: an empty or whitespace-only text gives no
/// statements; any other text is tokenized as markup and its events read
/// by [`parse_events`].
pub fn parse_xml_string(xml_string: &str) -> (r: Result<Vec<Statements>, ParseError>)
    ensures
        outcome_model(r) == text_spec(xml_string@),
{
    if trim(xml_string).unicode_len() == 0 {
        let none: Vec<Statements> = Vec::new();
        proof {
            assert(statements_model(none@) == Seq::<StatementModel>::empty());
        }
        return Ok(none);
    }
    let events = read_markup(xml_string);
    parse_events(&events)
}

/// Parsing is a function of the text: equal texts give equal outcomes, so
/// parsing the same text twice gives equal trees or equal errors.
pub proof fn lemma_parse_deterministic(t1: Seq<char>, t2: Seq<char>)
    requires
        t1 == t2,
    ensures
        text_spec(t1) == text_spec(t2),
{
}

/// A text that trimming leaves empty (it is empty or only whitespace)
/// gives no statements, and no error.
pub proof fn lemma_blank_text_is_empty(text: Seq<char>)
    requires
        trimmed(text).len() == 0,
    ensures
        text_spec(text) == Ok::<Seq<StatementModel>, ErrorModel>(Seq::empty()),
{
}

/// A close element other than that of the call, where the close of a call
/// or another argument is expected, is a grammar error naming that
/// element; no tree comes of it.
pub proof fn lemma_wrong_close_in_call(evs: Seq<EventModel>, i: int, name: Seq<char>, args: Seq<ValueModel>, other: Seq<char>)
    requires
        0 <= i < evs.len(),
        evs[i] == (EventModel::EndElement { name: other }),
        other != word_call(),
    ensures
        call_args_spec(evs, i, name, args) == Err::<(Seq<char>, Seq<ValueModel>, int), ErrorModel>(
            grammar_error(StructuralKind::Malformed, other),
        ),
{
}

/// A top-level element other than `define` and `call` is refused as
/// unsupported, whatever comes after it.
pub proof fn lemma_unsupported_top_element(
    evs: Seq<EventModel>,
    i: int,
    acc: Seq<StatementModel>,
    name: Seq<char>,
    attributes: Seq<(Seq<char>, Seq<char>)>,
)
    requires
        0 <= i < evs.len(),
        evs[i] == (EventModel::StartElement { name, attributes }),
        name != word_define(),
        name != word_call(),
    ensures
        top_spec(evs, i, acc) == Err::<Seq<StatementModel>, ErrorModel>(
            grammar_error(StructuralKind::UnsupportedElement, name),
        ),
{
}

} // verus!
