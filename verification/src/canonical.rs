//! One meaning, one digest: the order in which fields and expectations are written down
//! does not matter, and neither does who sends a command.

use crate::command::{
    aggregate_before, canonical_expected, digest_json, insert_expected, repeats_aggregate,
    sort_expected, EnvelopeView, PayloadView,
};
use crate::handles::{AggregateKind, AggregateView, ExpectedView};
use crate::json::{
    canonical_text, distinct_names, insert_field, sort_fields, sorted_values, sorted_view, JsonView,
};
use crate::text::{before, lemma_before_total, lemma_before_transitive};
use vstd::prelude::*;
use vstd::string::*;

verus! {

/// Whether each member of a list stands before every later one.
pub open spec fn strictly<A>(v: Seq<A>, less: spec_fn(A, A) -> bool) -> bool {
    forall|i: int, j: int| 0 <= i < j < v.len() ==> less(#[trigger] v[i], #[trigger] v[j])
}

/// Whether two lists have the same members.
pub open spec fn same_members<A>(x: Seq<A>, y: Seq<A>) -> bool {
    forall|a: A| #[trigger] x.contains(a) <==> #[trigger] y.contains(a)
}

/// Two lists in strict order with the same members are the same list.
proof fn lemma_one_order<A>(x: Seq<A>, y: Seq<A>, less: spec_fn(A, A) -> bool)
    requires
        strictly(x, less),
        strictly(y, less),
        same_members(x, y),
        forall|a: A, b: A| #[trigger] less(a, b) ==> !less(b, a),
    ensures
        x == y,
    decreases x.len(),
{
    if x.len() == 0 {
        if y.len() > 0 {
            assert(y.contains(y[0]));
            assert(x.contains(y[0]));
        }
        assert(x =~= y);
    } else {
        assert(x.contains(x.last()));
        assert(y.contains(x.last()));
        let a = x.last();
        let b = y.last();
        assert(y.contains(b));
        assert(x.contains(b));
        let i = choose|i: int| 0 <= i < x.len() && x[i] == b;
        let j = choose|j: int| 0 <= j < y.len() && y[j] == a;
        if a != b {
            assert(less(x[i], x[x.len() - 1]));
            assert(less(y[j], y[y.len() - 1]));
            assert(less(b, a) && less(a, b));
        }
        assert(a == b);
        let u = x.drop_last();
        let w = y.drop_last();
        assert forall|c: A| #[trigger] u.contains(c) <==> #[trigger] w.contains(c) by {
            if u.contains(c) {
                let k = choose|k: int| 0 <= k < u.len() && u[k] == c;
                assert(x[k] == c);
                assert(less(x[k], x[x.len() - 1]));
                assert(c != a);
                assert(x.contains(c));
                assert(y.contains(c));
                let m = choose|m: int| 0 <= m < y.len() && y[m] == c;
                assert(m != y.len() - 1);
                assert(w[m] == c);
            }
            if w.contains(c) {
                let k = choose|k: int| 0 <= k < w.len() && w[k] == c;
                assert(y[k] == c);
                assert(less(y[k], y[y.len() - 1]));
                assert(c != b);
                assert(y.contains(c));
                assert(x.contains(c));
                let m = choose|m: int| 0 <= m < x.len() && x[m] == c;
                assert(m != x.len() - 1);
                assert(u[m] == c);
            }
        }
        lemma_one_order(u, w, less);
        assert(x =~= u.push(a));
        assert(y =~= w.push(b));
    }
}

/// The order of fields by their names.
pub open spec fn by_name() -> spec_fn((Seq<char>, JsonView), (Seq<char>, JsonView)) -> bool {
    |a: (Seq<char>, JsonView), b: (Seq<char>, JsonView)| before(a.0, b.0)
}

proof fn lemma_insert_field(s: Seq<(Seq<char>, JsonView)>, x: (Seq<char>, JsonView))
    requires
        strictly(s, by_name()),
        forall|i: int| 0 <= i < s.len() ==> (#[trigger] s[i]).0 != x.0,
    ensures
        strictly(insert_field(s, x), by_name()),
        forall|a: (Seq<char>, JsonView)| #[trigger]
            insert_field(s, x).contains(a) <==> a == x || s.contains(a),
    decreases s.len(),
{
    let out = insert_field(s, x);
    if s.len() == 0 || !before(x.0, s.last().0) {
        assert forall|i: int, j: int| 0 <= i < j < out.len() implies by_name()(
            #[trigger] out[i],
            #[trigger] out[j],
        ) by {
            if j == s.len() {
                lemma_before_total(x.0, s.last().0);
                assert(s[s.len() - 1].0 != x.0);
                if i < s.len() - 1 {
                    assert(by_name()(s[i], s[s.len() - 1]));
                    lemma_before_transitive(s[i].0, s.last().0, x.0);
                }
            } else {
                assert(by_name()(s[i], s[j]));
            }
        }
        assert forall|a: (Seq<char>, JsonView)| #[trigger]
            out.contains(a) <==> a == x || s.contains(a) by {
            if a == x {
                assert(out[s.len() as int] == x);
            }
            if s.contains(a) {
                let k = choose|k: int| 0 <= k < s.len() && s[k] == a;
                assert(out[k] == a);
            }
            if out.contains(a) && a != x {
                let k = choose|k: int| 0 <= k < out.len() && out[k] == a;
                assert(s[k] == a);
            }
        }
    } else {
        let init = s.drop_last();
        assert forall|i: int, j: int| 0 <= i < j < init.len() implies by_name()(
            #[trigger] init[i],
            #[trigger] init[j],
        ) by {
            assert(by_name()(s[i], s[j]));
        }
        assert forall|i: int| 0 <= i < init.len() implies (#[trigger] init[i]).0 != x.0 by {
            assert(s[i].0 != x.0);
        }
        lemma_insert_field(init, x);
        let p = insert_field(init, x);
        let last = s.last();
        assert forall|i: int, j: int| 0 <= i < j < out.len() implies by_name()(
            #[trigger] out[i],
            #[trigger] out[j],
        ) by {
            if j == p.len() {
                assert(out[i] == p[i]);
                assert(p.contains(p[i]));
                if p[i] != x {
                    assert(init.contains(p[i]));
                    let k = choose|k: int| 0 <= k < init.len() && init[k] == p[i];
                    assert(by_name()(s[k], s[s.len() - 1]));
                }
            } else {
                assert(by_name()(p[i], p[j]));
            }
        }
        assert forall|a: (Seq<char>, JsonView)| #[trigger]
            out.contains(a) <==> a == x || s.contains(a) by {
            if p.contains(a) {
                let k = choose|k: int| 0 <= k < p.len() && p[k] == a;
                assert(out[k] == a);
            }
            assert(out[p.len() as int] == last);
            if init.contains(a) {
                let k = choose|k: int| 0 <= k < init.len() && init[k] == a;
                assert(s[k] == a);
            }
            if s.contains(a) && a != last {
                let k = choose|k: int| 0 <= k < s.len() && s[k] == a;
                assert(init[k] == a);
            }
            assert(s[s.len() - 1] == last);
            if out.contains(a) && a != last {
                let k = choose|k: int| 0 <= k < out.len() && out[k] == a;
                assert(p[k] == a);
            }
        }
    }
}

proof fn lemma_sort_fields(f: Seq<(Seq<char>, JsonView)>)
    requires
        distinct_names(f),
    ensures
        strictly(sort_fields(f), by_name()),
        same_members(sort_fields(f), f),
    decreases f.len(),
{
    if f.len() > 0 {
        let init = f.drop_last();
        let x = f.last();
        assert forall|i: int, j: int| 0 <= i < j < init.len() implies (#[trigger] init[i]).0 != (
        #[trigger] init[j]).0 by {
            assert(f[i].0 != f[j].0);
        }
        lemma_sort_fields(init);
        let s = sort_fields(init);
        assert forall|i: int| 0 <= i < s.len() implies (#[trigger] s[i]).0 != x.0 by {
            assert(s.contains(s[i]));
            assert(init.contains(s[i]));
            let k = choose|k: int| 0 <= k < init.len() && init[k] == s[i];
            assert(f[k].0 != f[f.len() - 1].0);
        }
        lemma_insert_field(s, x);
        assert forall|a: (Seq<char>, JsonView)| #[trigger]
            sort_fields(f).contains(a) <==> #[trigger] f.contains(a) by {
            assert(sort_fields(f) == insert_field(s, x));
            if f.contains(a) && a != x {
                let k = choose|k: int| 0 <= k < f.len() && f[k] == a;
                assert(init[k] == a);
                assert(init.contains(a));
            }
            assert(f[f.len() - 1] == x);
            if s.contains(a) {
                assert(init.contains(a));
                let k = choose|k: int| 0 <= k < init.len() && init[k] == a;
                assert(f[k] == a);
            }
        }
    }
}

/// The order in which the fields of an object are written does not matter.
pub proof fn law_the_order_of_fields_does_not_matter(
    f: Seq<(Seq<char>, JsonView)>,
    g: Seq<(Seq<char>, JsonView)>,
)
    requires
        distinct_names(f),
        distinct_names(g),
        same_members(f, g),
    ensures
        sorted_view(JsonView::Object(f)) == sorted_view(JsonView::Object(g)),
        canonical_text(JsonView::Object(f)) == canonical_text(JsonView::Object(g)),
{
    let u = sorted_values(f);
    let w = sorted_values(g);
    assert forall|i: int, j: int| 0 <= i < j < u.len() implies (#[trigger] u[i]).0 != (
    #[trigger] u[j]).0 by {
        assert(f[i].0 != f[j].0);
    }
    assert forall|i: int, j: int| 0 <= i < j < w.len() implies (#[trigger] w[i]).0 != (
    #[trigger] w[j]).0 by {
        assert(g[i].0 != g[j].0);
    }
    assert forall|a: (Seq<char>, JsonView)| #[trigger] u.contains(a) <==> #[trigger] w.contains(
        a,
    ) by {
        if u.contains(a) {
            let k = choose|k: int| 0 <= k < u.len() && u[k] == a;
            assert(f.contains(f[k]));
            assert(g.contains(f[k]));
            let m = choose|m: int| 0 <= m < g.len() && g[m] == f[k];
            assert(w[m] == a);
        }
        if w.contains(a) {
            let k = choose|k: int| 0 <= k < w.len() && w[k] == a;
            assert(g.contains(g[k]));
            assert(f.contains(g[k]));
            let m = choose|m: int| 0 <= m < f.len() && f[m] == g[k];
            assert(u[m] == a);
        }
    }
    lemma_sort_fields(u);
    lemma_sort_fields(w);
    assert forall|a: (Seq<char>, JsonView), b: (Seq<char>, JsonView)| #[trigger]
        by_name()(a, b) implies !by_name()(b, a) by {
        lemma_before_total(a.0, b.0);
    }
    assert forall|a: (Seq<char>, JsonView)| #[trigger] sort_fields(u).contains(a)
        <==> #[trigger] sort_fields(w).contains(a) by {
        assert(sort_fields(u).contains(a) <==> u.contains(a));
        assert(sort_fields(w).contains(a) <==> w.contains(a));
    }
    lemma_one_order(sort_fields(u), sort_fields(w), by_name());
}

/// Every kind of aggregate reads back from its name.
pub proof fn law_aggregate_kind_round_trip(kind: AggregateKind)
    ensures
        AggregateKind::named(kind.name()) == Some(kind),
{
    reveal_strlit("project");
    reveal_strlit("project_workflow");
    reveal_strlit("workflow_run");
    reveal_strlit("step");
    reveal_strlit("agent_run");
    reveal_strlit("agent_session");
    reveal_strlit("agent_instance");
    reveal_strlit("provider_profile");
    reveal_strlit("installation");
    reveal_strlit("root_state");
    assert("project"@.len() == 7);
    assert("project_workflow"@.len() == 16);
    assert("workflow_run"@.len() == 12);
    assert("step"@.len() == 4);
    assert("agent_run"@.len() == 9);
    assert("agent_session"@.len() == 13);
    assert("agent_instance"@.len() == 14);
    assert("provider_profile"@.len() == 16);
    assert("installation"@.len() == 12);
    assert("root_state"@.len() == 10);
    assert("project_workflow"@[3] != "provider_profile"@[3]);
    assert("workflow_run"@[0] != "installation"@[0]);
}

/// The order of expectations by their aggregates.
pub open spec fn by_aggregate() -> spec_fn(ExpectedView, ExpectedView) -> bool {
    |a: ExpectedView, b: ExpectedView| aggregate_before(a.aggregate, b.aggregate)
}

proof fn lemma_aggregates_total(a: AggregateView, b: AggregateView)
    ensures
        a != b ==> aggregate_before(a, b) || aggregate_before(b, a),
        !(aggregate_before(a, b) && aggregate_before(b, a)),
        !aggregate_before(a, a),
{
    lemma_before_total(a.kind.name(), b.kind.name());
    lemma_before_total(a.handle, b.handle);
    lemma_before_total(a.kind.name(), a.kind.name());
    lemma_before_total(a.handle, a.handle);
    law_aggregate_kind_round_trip(a.kind);
    law_aggregate_kind_round_trip(b.kind);
}

proof fn lemma_aggregates_transitive(a: AggregateView, b: AggregateView, c: AggregateView)
    requires
        aggregate_before(a, b),
        aggregate_before(b, c),
    ensures
        aggregate_before(a, c),
{
    if before(a.kind.name(), b.kind.name()) && before(b.kind.name(), c.kind.name()) {
        lemma_before_transitive(a.kind.name(), b.kind.name(), c.kind.name());
    }
    if before(a.handle, b.handle) && before(b.handle, c.handle) {
        lemma_before_transitive(a.handle, b.handle, c.handle);
    }
}

/// Whether no two expectations are about the same aggregate.
pub open spec fn distinct_aggregates(v: Seq<ExpectedView>) -> bool {
    forall|i: int, j: int|
        0 <= i < j < v.len() ==> (#[trigger] v[i]).aggregate != (#[trigger] v[j]).aggregate
}

proof fn lemma_insert_expected(s: Seq<ExpectedView>, x: ExpectedView)
    requires
        strictly(s, by_aggregate()),
        forall|i: int| 0 <= i < s.len() ==> (#[trigger] s[i]).aggregate != x.aggregate,
    ensures
        strictly(insert_expected(s, x), by_aggregate()),
        forall|a: ExpectedView| #[trigger]
            insert_expected(s, x).contains(a) <==> a == x || s.contains(a),
    decreases s.len(),
{
    let out = insert_expected(s, x);
    if s.len() == 0 || !aggregate_before(x.aggregate, s.last().aggregate) {
        assert forall|i: int, j: int| 0 <= i < j < out.len() implies by_aggregate()(
            #[trigger] out[i],
            #[trigger] out[j],
        ) by {
            if j == s.len() {
                lemma_aggregates_total(x.aggregate, s.last().aggregate);
                assert(s[s.len() - 1].aggregate != x.aggregate);
                if i < s.len() - 1 {
                    assert(by_aggregate()(s[i], s[s.len() - 1]));
                    lemma_aggregates_transitive(
                        s[i].aggregate,
                        s.last().aggregate,
                        x.aggregate,
                    );
                }
            } else {
                assert(by_aggregate()(s[i], s[j]));
            }
        }
        assert forall|a: ExpectedView| #[trigger] out.contains(a) <==> a == x || s.contains(a) by {
            if a == x {
                assert(out[s.len() as int] == x);
            }
            if s.contains(a) {
                let k = choose|k: int| 0 <= k < s.len() && s[k] == a;
                assert(out[k] == a);
            }
            if out.contains(a) && a != x {
                let k = choose|k: int| 0 <= k < out.len() && out[k] == a;
                assert(s[k] == a);
            }
        }
    } else {
        let init = s.drop_last();
        assert forall|i: int, j: int| 0 <= i < j < init.len() implies by_aggregate()(
            #[trigger] init[i],
            #[trigger] init[j],
        ) by {
            assert(by_aggregate()(s[i], s[j]));
        }
        assert forall|i: int| 0 <= i < init.len() implies (#[trigger] init[i]).aggregate
            != x.aggregate by {
            assert(s[i].aggregate != x.aggregate);
        }
        lemma_insert_expected(init, x);
        let p = insert_expected(init, x);
        let last = s.last();
        assert forall|i: int, j: int| 0 <= i < j < out.len() implies by_aggregate()(
            #[trigger] out[i],
            #[trigger] out[j],
        ) by {
            if j == p.len() {
                assert(out[i] == p[i]);
                assert(p.contains(p[i]));
                if p[i] != x {
                    assert(init.contains(p[i]));
                    let k = choose|k: int| 0 <= k < init.len() && init[k] == p[i];
                    assert(by_aggregate()(s[k], s[s.len() - 1]));
                }
            } else {
                assert(by_aggregate()(p[i], p[j]));
            }
        }
        assert forall|a: ExpectedView| #[trigger] out.contains(a) <==> a == x || s.contains(a) by {
            if p.contains(a) {
                let k = choose|k: int| 0 <= k < p.len() && p[k] == a;
                assert(out[k] == a);
            }
            assert(out[p.len() as int] == last);
            if init.contains(a) {
                let k = choose|k: int| 0 <= k < init.len() && init[k] == a;
                assert(s[k] == a);
            }
            if s.contains(a) && a != last {
                let k = choose|k: int| 0 <= k < s.len() && s[k] == a;
                assert(init[k] == a);
            }
            assert(s[s.len() - 1] == last);
            if out.contains(a) && a != last {
                let k = choose|k: int| 0 <= k < out.len() && out[k] == a;
                assert(p[k] == a);
            }
        }
    }
}

proof fn lemma_sort_expected(f: Seq<ExpectedView>)
    requires
        distinct_aggregates(f),
    ensures
        strictly(sort_expected(f), by_aggregate()),
        same_members(sort_expected(f), f),
    decreases f.len(),
{
    if f.len() > 0 {
        let init = f.drop_last();
        let x = f.last();
        assert forall|i: int, j: int| 0 <= i < j < init.len() implies (
        #[trigger] init[i]).aggregate != (#[trigger] init[j]).aggregate by {
            assert(f[i].aggregate != f[j].aggregate);
        }
        lemma_sort_expected(init);
        let s = sort_expected(init);
        assert forall|i: int| 0 <= i < s.len() implies (#[trigger] s[i]).aggregate
            != x.aggregate by {
            assert(s.contains(s[i]));
            assert(init.contains(s[i]));
            let k = choose|k: int| 0 <= k < init.len() && init[k] == s[i];
            assert(f[k].aggregate != f[f.len() - 1].aggregate);
        }
        lemma_insert_expected(s, x);
        assert forall|a: ExpectedView| #[trigger] sort_expected(f).contains(a)
            <==> #[trigger] f.contains(a) by {
            assert(sort_expected(f) == insert_expected(s, x));
            if f.contains(a) && a != x {
                let k = choose|k: int| 0 <= k < f.len() && f[k] == a;
                assert(init[k] == a);
                assert(init.contains(a));
            }
            assert(f[f.len() - 1] == x);
            if s.contains(a) {
                assert(init.contains(a));
                let k = choose|k: int| 0 <= k < init.len() && init[k] == a;
                assert(f[k] == a);
            }
        }
    }
}

/// The order in which the expectations of a command are written does not matter.
pub proof fn law_the_order_of_expectations_does_not_matter(
    f: Seq<ExpectedView>,
    g: Seq<ExpectedView>,
)
    requires
        distinct_aggregates(f),
        distinct_aggregates(g),
        same_members(f, g),
    ensures
        canonical_expected(f) == canonical_expected(g),
{
    lemma_sort_expected(f);
    lemma_sort_expected(g);
    assert forall|a: ExpectedView, b: ExpectedView| #[trigger]
        by_aggregate()(a, b) implies !by_aggregate()(b, a) by {
        lemma_aggregates_total(a.aggregate, b.aggregate);
    }
    assert forall|a: ExpectedView| #[trigger] sort_expected(f).contains(a)
        <==> #[trigger] sort_expected(g).contains(a) by {
        assert(sort_expected(f).contains(a) <==> f.contains(a));
        assert(sort_expected(g).contains(a) <==> g.contains(a));
    }
    lemma_one_order(sort_expected(f), sort_expected(g), by_aggregate());
}

/// Whether two payloads say the same: they are the same, or their fields are in another
/// order.
pub open spec fn same_payload(a: PayloadView, b: PayloadView) -> bool {
    ||| a == b
    ||| {
        &&& a matches PayloadView::Plain(JsonView::Object(f))
        &&& b matches PayloadView::Plain(JsonView::Object(g))
        &&& distinct_names(f)
        &&& distinct_names(g)
        &&& same_members(f, g)
    }
}

/// Two commands that mean the same have the same digest: whoever sends them, under
/// whatever lease and id, and in whatever order they list their fields and what they
/// expect.
pub proof fn law_one_meaning_one_digest(a: EnvelopeView, b: EnvelopeView, key: Seq<u8>)
    requires
        a.problem() is None,
        b.problem() is None,
        a.command_type == b.command_type,
        a.target == b.target,
        same_members(a.expected, b.expected),
        same_payload(a.payload, b.payload),
    ensures
        a.digest(key) == b.digest(key),
{
    assert(!repeats_aggregate(a.expected));
    assert(!repeats_aggregate(b.expected));
    law_the_order_of_expectations_does_not_matter(a.expected, b.expected);
    if a.payload != b.payload {
        let x = a.payload->Plain_0;
        let y = b.payload->Plain_0;
        law_the_order_of_fields_does_not_matter(x->Object_0, y->Object_0);
        let f = digest_json(a, x)->Object_0;
        let g = digest_json(b, y)->Object_0;
        let u = sorted_values(f);
        let w = sorted_values(g);
        assert forall|i: int| 0 <= i < 5 implies u[i] == w[i] by {
            if i < 4 {
                assert(f[i] == g[i]);
            }
        }
        assert(u =~= w);
    }
}

} // verus!
