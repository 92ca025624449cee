use vstd::prelude::*;
use crate::ast::{wf_program, Program};
use crate::context::{Context, Diagnostic};
use crate::rules::no_extra_semi::NoExtraSemiVisitor;
use crate::rules::{
    event_diags, events_diags, rule_diags, Rule,
};
use crate::walk::{events_program, Event};

verus! {

/// Everything a rule set reports over one program: each rule's
/// diagnostics in registration order, grouped by rule.
pub open spec fn lint_spec(rules: Seq<Rule>, p: Program, src: Seq<u8>) -> Seq<Diagnostic>
    decreases rules,
{
    if rules.len() == 0 {
        Seq::empty()
    } else {
        lint_spec(rules.drop_last(), p, src) + rule_diags(rules.last(), p, src)
    }
}

impl Rule {
    /// Run one rule once over one program with the shared context.
    pub fn run(self, ctx: &mut Context, program: &Program)
        requires
            old(ctx).inv(),
            wf_program(*program, old(ctx).source@.len()),
            program.file == old(ctx).file,
        ensures
            final(ctx).inv(),
            final(ctx).file == old(ctx).file,
            final(ctx).source == old(ctx).source,
            final(ctx).diagnostics@ == old(ctx).diagnostics@ + rule_diags(
                self,
                *program,
                old(ctx).source@,
            ),
    {
        match self {
            Rule::StraySemicolon => {
                let v = NoExtraSemiVisitor::new();
                v.visit_program(ctx, program);
            },
            _ => {
                crate::walk::run_rule(self, ctx, program);
            },
        }
    }
}

/// Lint one program: run each rule in order over the shared context and
/// return the collected diagnostics.  The result is exactly
/// `lint_spec(rules@, *program, source@)` — a function of the rule set,
/// the tree, and the source text alone — and every reported span lies
/// inside the source extent.
pub fn lint(rules: &Vec<Rule>, program: &Program, source: Vec<u8>, file: usize) -> (ds: Vec<
    Diagnostic,
>)
    requires
        wf_program(*program, source@.len()),
        program.file == file,
    ensures
        ds@ == lint_spec(rules@, *program, source@),
        forall|i: int|
            0 <= i < ds@.len() ==> (#[trigger] ds@[i]).span.inside(file, source@.len()),
{
    let ghost src0 = source@;
    let mut ctx = Context::new(file, source);
    let mut i: usize = 0;
    while i < rules.len()
        invariant
            ctx.inv(),
            ctx.file == file,
            ctx.source@ == src0,
            wf_program(*program, src0.len()),
            program.file == file,
            i <= rules@.len(),
            ctx.diagnostics@ == lint_spec(rules@.take(i as int), *program, src0),
        decreases rules@.len() - i,
    {
        let r = rules[i];
        r.run(&mut ctx, program);
        proof {
            assert(rules@.take(i + 1).drop_last() =~= rules@.take(i as int));
            assert(rules@.take(i + 1).last() == rules@[i as int]);
            assert(ctx.diagnostics@ =~= lint_spec(rules@.take(i + 1), *program, src0));
        }
        i = i + 1;
    }
    proof {
        assert(rules@.take(rules@.len() as int) =~= rules@);
    }
    ctx.diagnostics
}

/// The registry of shipped rules: enumerable in registration order and
/// addressable by code or by tag.
pub struct Registry {
    pub rules: Vec<Rule>,
}

impl Registry {
    /// The shipped rules in registration order.
    pub open spec fn default_rules() -> Seq<Rule> {
        seq![Rule::DuplicateCase, Rule::EmptyInterface, Rule::ExceptionAssign, Rule::StraySemicolon]
    }

    pub fn new() -> (r: Registry)
        ensures
            r.rules@ == Registry::default_rules(),
    {
        let mut rules: Vec<Rule> = Vec::new();
        rules.push(Rule::DuplicateCase);
        rules.push(Rule::EmptyInterface);
        rules.push(Rule::ExceptionAssign);
        rules.push(Rule::StraySemicolon);
        proof {
            assert(rules@ =~= Registry::default_rules());
        }
        Registry { rules }
    }

    /// The registered rule carrying exactly the given code, if any.
    pub fn get_by_code(&self, code: &str) -> (found: Option<Rule>)
        ensures
            match found {
                Some(r) => exists|i: int|
                    0 <= i < self.rules@.len() && self.rules@[i] == r && r.code_spec()@ == code@,
                None => forall|i: int|
                    0 <= i < self.rules@.len() ==> (#[trigger] self.rules@[i]).code_spec()@
                        != code@,
            },
    {
        let wanted: String = code.to_owned();
        let mut i: usize = 0;
        while i < self.rules.len()
            invariant
                i <= self.rules@.len(),
                wanted@ == code@,
                forall|j: int|
                    0 <= j < i ==> (#[trigger] self.rules@[j]).code_spec()@ != code@,
            decreases self.rules@.len() - i,
        {
            let r = self.rules[i];
            let c: String = r.code().to_owned();
            if c == wanted {
                return Some(r);
            }
            i = i + 1;
        }
        None
    }

    /// The registered rules carrying the given tag, in registration
    /// order.  Every shipped rule carries exactly the tag `recommended`.
    pub fn get_by_tag(&self, tag: &str) -> (out: Vec<Rule>)
        ensures
            tag@ == "recommended"@ ==> out@ == self.rules@,
            tag@ != "recommended"@ ==> out@ == Seq::<Rule>::empty(),
    {
        let wanted: String = tag.to_owned();
        let rec: String = "recommended".to_owned();
        let mut out: Vec<Rule> = Vec::new();
        if wanted == rec {
            let mut i: usize = 0;
            while i < self.rules.len()
                invariant
                    i <= self.rules@.len(),
                    out@ == self.rules@.take(i as int),
                decreases self.rules@.len() - i,
            {
                out.push(self.rules[i]);
                proof {
                    assert(out@ =~= self.rules@.take(i + 1));
                }
                i = i + 1;
            }
            proof {
                assert(self.rules@.take(self.rules@.len() as int) =~= self.rules@);
            }
        } else {
            proof {
                assert(out@ =~= Seq::<Rule>::empty());
            }
        }
        out
    }
}

/// Determinism: the diagnostics are a function of the rule set, the
/// tree, and the source text alone, so two runs over the same program
/// agree byte for byte.
pub proof fn lemma_lint_deterministic(
    d1: Seq<Diagnostic>,
    d2: Seq<Diagnostic>,
    rules: Seq<Rule>,
    p: Program,
    src: Seq<u8>,
)
    requires
        d1 == lint_spec(rules, p, src),
        d2 == lint_spec(rules, p, src),
    ensures
        d1 == d2,
{
}

/// Every diagnostic one rule reports over an event stream carries that
/// rule's code.
proof fn lemma_events_diags_code(r: Rule, evs: Seq<Event>, src: Seq<u8>)
    ensures
        forall|i: int|
            0 <= i < events_diags(r, evs, src).len() ==> (#[trigger] events_diags(r, evs, src)[i]).code
                == r.code_spec(),
    decreases evs,
{
    if evs.len() > 0 {
        lemma_events_diags_code(r, evs.drop_first(), src);
        let h = event_diags(r, evs[0], src);
        let t = events_diags(r, evs.drop_first(), src);
        assert forall|j: int| 0 <= j < h.len() implies (#[trigger] h[j]).code == r.code_spec() by {
            match r {
                Rule::DuplicateCase => {
                    match evs[0] {
                        Event::Switch { cases, .. } => {
                            crate::rules::no_duplicate_case::lemma_switch_diags_code(cases@, src);
                        },
                        _ => {},
                    }
                },
                _ => {},
            }
        }
        assert forall|i: int|
            0 <= i < events_diags(r, evs, src).len() implies (#[trigger] events_diags(
            r,
            evs,
            src,
        )[i]).code == r.code_spec() by {
            assert(events_diags(r, evs, src) == h + t);
            if i < h.len() {
                assert(events_diags(r, evs, src)[i] == h[i]);
            } else {
                assert(events_diags(r, evs, src)[i] == t[i - h.len()]);
            }
        }
    }
}

/// Every diagnostic one rule reports over a program carries that rule's
/// code.
pub proof fn lemma_rule_diags_code(r: Rule, p: Program, src: Seq<u8>)
    ensures
        forall|i: int|
            0 <= i < rule_diags(r, p, src).len() ==> (#[trigger] rule_diags(r, p, src)[i]).code
                == r.code_spec(),
{
    match r {
        Rule::StraySemicolon => {
            assert forall|i: int| 0 <= i < rule_diags(r, p, src).len() implies (
            #[trigger] rule_diags(r, p, src)[i]).code == r.code_spec() by {
                let spans = crate::rules::no_extra_semi::program_spans(p);
                assert(rule_diags(r, p, src)[i] == crate::rules::no_extra_semi::diag(spans[i]));
            }
        },
        _ => {
            lemma_events_diags_code(r, events_program(p), src);
        },
    }
}

/// Code stability: every diagnostic the linter can emit carries the
/// code of one of the four shipped rules.
pub proof fn lemma_code_stability(rules: Seq<Rule>, p: Program, src: Seq<u8>)
    ensures
        forall|i: int|
            0 <= i < lint_spec(rules, p, src).len() ==> {
                let c = (#[trigger] lint_spec(rules, p, src)[i]).code;
                c == "no-duplicate-case" || c == "no-empty-interface" || c == "no-ex-assign"
                    || c == "no-extra-semi"
            },
    decreases rules,
{
    if rules.len() > 0 {
        lemma_code_stability(rules.drop_last(), p, src);
        lemma_rule_diags_code(rules.last(), p, src);
        let a = lint_spec(rules.drop_last(), p, src);
        let b = rule_diags(rules.last(), p, src);
        assert forall|i: int|
            0 <= i < lint_spec(rules, p, src).len() implies {
            let c = (#[trigger] lint_spec(rules, p, src)[i]).code;
            c == "no-duplicate-case" || c == "no-empty-interface" || c == "no-ex-assign"
                || c == "no-extra-semi"
        } by {
            assert(lint_spec(rules, p, src) == a + b);
            if i < a.len() {
                assert(lint_spec(rules, p, src)[i] == a[i]);
            } else {
                assert(lint_spec(rules, p, src)[i] == b[i - a.len()]);
            }
        }
    }
}

/// A filter that keeps every element is the identity.
proof fn lemma_filter_keep_all(s: Seq<Diagnostic>, pred: spec_fn(Diagnostic) -> bool)
    requires
        forall|i: int| 0 <= i < s.len() ==> pred(#[trigger] s[i]),
    ensures
        s.filter(pred) == s,
    decreases s.len(),
{
    reveal(Seq::filter);
    if s.len() > 0 {
        assert forall|i: int| 0 <= i < s.drop_last().len() implies pred(
            #[trigger] s.drop_last()[i],
        ) by {
            assert(s.drop_last()[i] == s[i]);
        }
        lemma_filter_keep_all(s.drop_last(), pred);
        assert(pred(s.last()));
        assert(s.filter(pred) =~= s);
    }
}

/// A filter that keeps no element is empty.
proof fn lemma_filter_drop_all(s: Seq<Diagnostic>, pred: spec_fn(Diagnostic) -> bool)
    requires
        forall|i: int| 0 <= i < s.len() ==> !pred(#[trigger] s[i]),
    ensures
        s.filter(pred) == Seq::<Diagnostic>::empty(),
    decreases s.len(),
{
    reveal(Seq::filter);
    if s.len() > 0 {
        assert forall|i: int| 0 <= i < s.drop_last().len() implies !pred(
            #[trigger] s.drop_last()[i],
        ) by {
            assert(s.drop_last()[i] == s[i]);
        }
        lemma_filter_drop_all(s.drop_last(), pred);
        assert(!pred(s.last()));
    } else {
        assert(s.filter(pred) =~= Seq::<Diagnostic>::empty());
    }
}

/// Distinct rules carry distinct codes.
pub proof fn lemma_codes_distinct(a: Rule, b: Rule)
    requires
        a != b,
    ensures
        a.code_spec()@ != b.code_spec()@,
{
    reveal_strlit("no-duplicate-case");
    reveal_strlit("no-empty-interface");
    reveal_strlit("no-ex-assign");
    reveal_strlit("no-extra-semi");
    assert("no-duplicate-case"@.len() == 17);
    assert("no-empty-interface"@.len() == 18);
    assert("no-ex-assign"@.len() == 12);
    assert("no-extra-semi"@.len() == 13);
}

/// A rule set that does not contain `c` reports no diagnostic carrying
/// `c`'s code.
proof fn lemma_lint_spec_other_codes(rules: Seq<Rule>, c: Rule, p: Program, src: Seq<u8>)
    requires
        forall|i: int| 0 <= i < rules.len() ==> rules[i] != c,
    ensures
        forall|i: int|
            0 <= i < lint_spec(rules, p, src).len() ==> (#[trigger] lint_spec(rules, p, src)[i]).code@
                != c.code_spec()@,
    decreases rules,
{
    if rules.len() > 0 {
        assert(rules[rules.len() - 1] != c);
        lemma_lint_spec_other_codes(rules.drop_last(), c, p, src);
        lemma_rule_diags_code(rules.last(), p, src);
        lemma_codes_distinct(rules.last(), c);
        let a = lint_spec(rules.drop_last(), p, src);
        let b = rule_diags(rules.last(), p, src);
        assert forall|i: int|
            0 <= i < lint_spec(rules, p, src).len() implies (#[trigger] lint_spec(
            rules,
            p,
            src,
        )[i]).code@ != c.code_spec()@ by {
            assert(lint_spec(rules, p, src) == a + b);
            if i < a.len() {
                assert(lint_spec(rules, p, src)[i] == a[i]);
            } else {
                assert(lint_spec(rules, p, src)[i] == b[i - a.len()]);
                assert(b[i - a.len()].code == rules.last().code_spec());
            }
        }
    }
}

/// Locality: removing one rule from a duplicate-free rule set removes
/// exactly the diagnostics carrying its code and alters no others.
#[verifier::rlimit(100)]
pub proof fn lemma_rule_locality(rules: Seq<Rule>, k: int, c: Rule, p: Program, src: Seq<u8>)
    requires
        0 <= k < rules.len(),
        rules[k] == c,
        forall|i: int, j: int| 0 <= i < j < rules.len() ==> rules[i] != rules[j],
    ensures
        lint_spec(rules.remove(k), p, src) == lint_spec(rules, p, src).filter(
            |d: Diagnostic| d.code@ != c.code_spec()@,
        ),
    decreases rules.len(),
{
    let pred = |d: Diagnostic| d.code@ != c.code_spec()@;
    let a = lint_spec(rules.drop_last(), p, src);
    let b = rule_diags(rules.last(), p, src);
    assert(lint_spec(rules, p, src) == a + b);
    Seq::<Diagnostic>::filter_distributes_over_add(a, b, pred);
    lemma_rule_diags_code(rules.last(), p, src);
    if k == rules.len() - 1 {
        assert(rules.remove(k) =~= rules.drop_last());
        assert forall|i: int| 0 <= i < rules.drop_last().len() implies rules.drop_last()[i]
            != c by {
            assert(rules.drop_last()[i] == rules[i]);
        }
        lemma_lint_spec_other_codes(rules.drop_last(), c, p, src);
        lemma_filter_keep_all(a, pred);
        assert forall|i: int| 0 <= i < b.len() implies !pred(#[trigger] b[i]) by {
            assert(b[i].code == rules.last().code_spec());
        }
        lemma_filter_drop_all(b, pred);
        assert(lint_spec(rules, p, src).filter(pred) =~= a);
    } else {
        assert forall|i: int, j: int| 0 <= i < j < rules.drop_last().len() implies rules.drop_last()[i]
            != rules.drop_last()[j] by {
            assert(rules.drop_last()[i] == rules[i]);
            assert(rules.drop_last()[j] == rules[j]);
        }
        assert(rules.drop_last()[k] == rules[k]);
        lemma_rule_locality(rules.drop_last(), k, c, p, src);
        assert(rules.remove(k).drop_last() =~= rules.drop_last().remove(k));
        assert(rules.remove(k).last() == rules.last());
        assert(lint_spec(rules.remove(k), p, src) == lint_spec(rules.drop_last().remove(k), p, src)
            + b);
        assert(rules.last() != c);
        lemma_codes_distinct(rules.last(), c);
        assert forall|i: int| 0 <= i < b.len() implies pred(#[trigger] b[i]) by {
            assert(b[i].code == rules.last().code_spec());
        }
        lemma_filter_keep_all(b, pred);
        assert(lint_spec(rules.remove(k), p, src) =~= lint_spec(rules, p, src).filter(pred));
    }
}

} // verus!
