pub mod no_duplicate_case;
pub mod no_empty_interface;
pub mod no_ex_assign;
pub mod no_extra_semi;

use vstd::prelude::*;
use crate::ast::Program;
use crate::context::Diagnostic;
use crate::walk::{events_program, Event};

verus! {

/// The four rules the engine ships, in registration order.  Each value
/// is stateless; the same value may run over any number of programs.
#[derive(Clone, Copy, PartialEq, Eq, Structural, Debug)]
pub enum Rule {
    DuplicateCase,
    EmptyInterface,
    ExceptionAssign,
    StraySemicolon,
}

impl Rule {
    /// The stable diagnostic code this rule emits.
    pub open spec fn code_spec(self) -> &'static str {
        match self {
            Rule::DuplicateCase => "no-duplicate-case",
            Rule::EmptyInterface => "no-empty-interface",
            Rule::ExceptionAssign => "no-ex-assign",
            Rule::StraySemicolon => "no-extra-semi",
        }
    }

    pub fn code(&self) -> (c: &'static str)
        ensures
            c == self.code_spec(),
    {
        match self {
            Rule::DuplicateCase => "no-duplicate-case",
            Rule::EmptyInterface => "no-empty-interface",
            Rule::ExceptionAssign => "no-ex-assign",
            Rule::StraySemicolon => "no-extra-semi",
        }
    }
}

/// The diagnostics one rule reports for one traversal event.  Rules that
/// do not decide on the event's node kind report nothing; the
/// stray-semicolon rule does not use the default traversal at all.
pub open spec fn event_diags(r: Rule, ev: Event, src: Seq<u8>) -> Seq<Diagnostic> {
    match r {
        Rule::DuplicateCase => match ev {
            Event::Switch { cases, .. } => no_duplicate_case::switch_diags(cases@, src),
            _ => Seq::empty(),
        },
        Rule::EmptyInterface => match ev {
            Event::Interface { span, n_extends, n_members } => no_empty_interface::interface_diags(
                span,
                n_extends,
                n_members,
            ),
            _ => Seq::empty(),
        },
        Rule::ExceptionAssign => match ev {
            Event::Assign { span, target } => no_ex_assign::assign_diags(span, target),
            _ => Seq::empty(),
        },
        Rule::StraySemicolon => Seq::empty(),
    }
}

/// The diagnostics one rule reports over a stream of events, in stream
/// order.
pub open spec fn events_diags(r: Rule, evs: Seq<Event>, src: Seq<u8>) -> Seq<Diagnostic>
    decreases evs,
{
    if evs.len() == 0 {
        Seq::empty()
    } else {
        event_diags(r, evs[0], src) + events_diags(r, evs.drop_first(), src)
    }
}

pub proof fn lemma_events_diags_add(r: Rule, a: Seq<Event>, b: Seq<Event>, src: Seq<u8>)
    ensures
        events_diags(r, a + b, src) == events_diags(r, a, src) + events_diags(r, b, src),
    decreases a,
{
    if a.len() == 0 {
        assert(a + b =~= b);
        assert(events_diags(r, a, src) + events_diags(r, b, src) =~= events_diags(r, b, src));
    } else {
        assert((a + b).drop_first() =~= a.drop_first() + b);
        assert((a + b)[0] == a[0]);
        lemma_events_diags_add(r, a.drop_first(), b, src);
        assert(events_diags(r, a + b, src) =~= events_diags(r, a, src) + events_diags(
            r,
            b,
            src,
        ));
    }
}

pub proof fn lemma_events_diags_singleton(r: Rule, ev: Event, src: Seq<u8>)
    ensures
        events_diags(r, seq![ev], src) == event_diags(r, ev, src),
{
    let s = seq![ev];
    assert(s.drop_first() =~= Seq::<Event>::empty());
    assert(events_diags(r, s.drop_first(), src) == Seq::<Diagnostic>::empty());
    assert(s[0] == ev);
    assert(events_diags(r, s, src) =~= event_diags(r, ev, src));
}

/// Everything one rule reports over one program, in the order the
/// rule's traversal meets the nodes.
pub open spec fn rule_diags(r: Rule, p: Program, src: Seq<u8>) -> Seq<Diagnostic> {
    match r {
        Rule::StraySemicolon => no_extra_semi::program_diags(p),
        _ => events_diags(r, events_program(p), src),
    }
}

} // verus!
