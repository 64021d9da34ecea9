//! Value promotions read off instantiated argumentation schemes.
//!
//! The scheme "Argument from Values" has a premise slot `value`. Each
//! instance of that scheme whose bindings give a `value` promotes it, for
//! the argument that a caller-supplied labelling assigns to the instance.

use vstd::prelude::*;
use crate::schemes::bindings::Bindings;
use crate::schemes::instance::SchemeInstance;
use crate::strings::{owned, strings_view};
use crate::values::apx::with_value;
use crate::values::types::{Value, ValueAssignment};

verus! {

/// The name under which the default catalogue registers the values scheme.
pub const DEFAULT_VALUES_SCHEME_NAME: &'static str = "Argument from Values";

/// An instance of the scheme named `target` whose bindings give a value.
pub open spec fn contributes(inst: SchemeInstance, b: Bindings, target: Seq<char>) -> bool {
    inst.scheme_name@ == target && b.value_of("value"@) is Some
}

/// `labels` has one label per pair, and the label of each contributing
/// instance is one `to_arg` can return for it.
pub open spec fn labels_fit<F: Fn(&SchemeInstance) -> String>(
    to_arg: F,
    pairs: Seq<(SchemeInstance, Bindings)>,
    labels: Seq<String>,
    target: Seq<char>,
) -> bool {
    &&& labels.len() == pairs.len()
    &&& forall|i: int| 0 <= i < pairs.len() && contributes(pairs[i].0, pairs[i].1, target)
        ==> call_ensures(to_arg, (&pairs[i].0,), #[trigger] labels[i])
}

/// The values promoted by the first `n` pairs, the `i`-th instance
/// labelled `labels[i]`.
pub open spec fn bridged(
    pairs: Seq<(SchemeInstance, Bindings)>,
    labels: Seq<Seq<char>>,
    target: Seq<char>,
    n: nat,
) -> spec_fn(Seq<char>) -> Seq<Seq<char>>
    decreases n,
{
    if n == 0 {
        |a: Seq<char>| Seq::<Seq<char>>::empty()
    } else {
        let f = bridged(pairs, labels, target, (n - 1) as nat);
        let q = pairs[n - 1];
        if contributes(q.0, q.1, target) {
            with_value(f, labels[n - 1], q.1.value_of("value"@)->Some_0)
        } else {
            f
        }
    }
}

/// The value assignment that the instances of the scheme named `target`
/// give: each such instance whose bindings hold a `value` promotes it for
/// the argument `to_arg` labels the instance with; other instances are
/// skipped. `to_arg` is called once for each instance that contributes.
pub fn from_scheme_instances_with_name<F: Fn(&SchemeInstance) -> String>(
    instances: &[(SchemeInstance, Bindings)],
    to_arg: F,
    target: &str,
) -> (r: ValueAssignment)
    requires
        forall|i: int| 0 <= i < instances@.len() ==> (#[trigger] instances@[i]).1.wf(),
        forall|i: int| 0 <= i < instances@.len() ==> call_requires(to_arg, (&(#[trigger] instances@[i]).0,)),
    ensures
        r.wf(),
        exists|labels: Seq<String>| #[trigger] labels_fit(to_arg, instances@, labels, target@)
            && forall|a: Seq<char>| #[trigger] r.values_of(a)
                == (bridged(instances@, strings_view(labels), target@, instances@.len()))(a),
{
    let mut assignment = ValueAssignment::new();
    let ghost mut labels: Seq<String> = Seq::empty();
    let mut i: usize = 0;
    while i < instances.len()
        invariant
            i <= instances@.len(),
            labels.len() == i,
            forall|k: int| 0 <= k < instances@.len() ==> (#[trigger] instances@[k]).1.wf(),
            forall|k: int| 0 <= k < instances@.len() ==> call_requires(to_arg, (&(#[trigger] instances@[k]).0,)),
            assignment.wf(),
            forall|k: int| 0 <= k < i && contributes(instances@[k].0, instances@[k].1, target@)
                ==> call_ensures(to_arg, (&instances@[k].0,), #[trigger] labels[k]),
            forall|a: Seq<char>| #[trigger] assignment.values_of(a)
                == (bridged(instances@, strings_view(labels), target@, i as nat))(a),
        decreases instances@.len() - i,
    {
        let ghost f = bridged(instances@, strings_view(labels), target@, i as nat);
        let ghost old_labels = labels;
        let pair = &instances[i];
        let named = pair.0.scheme_name == owned(target);
        let mut pushed = false;
        if named {
            match pair.1.get("value") {
                Some(v) => {
                    let arg = to_arg(&pair.0);
                    assignment.promote(arg.as_str(), Value::new(v.as_str()));
                    proof {
                        labels = labels.push(arg);
                    }
                    pushed = true;
                },
                None => {},
            }
        }
        proof {
            if !pushed {
                labels = labels.push(arbitrary());
            }
            assert(labels.drop_last() =~= old_labels);
            let ls = strings_view(labels);
            lemma_bridged_prefix(instances@, ls, strings_view(old_labels), target@, i as nat);
            assert(pushed == contributes(instances@[i as int].0, instances@[i as int].1, target@));
            assert forall|k: int| 0 <= k < i + 1 && contributes(instances@[k].0, instances@[k].1, target@)
                implies call_ensures(to_arg, (&instances@[k].0,), #[trigger] labels[k]) by {
                if k < i {
                    assert(labels[k] == old_labels[k]);
                }
            }
            assert forall|a: Seq<char>| #[trigger] assignment.values_of(a)
                == (bridged(instances@, ls, target@, (i + 1) as nat))(a) by {
                assert(bridged(instances@, ls, target@, i as nat) == f);
            }
        }
        i = i + 1;
    }
    assert(labels_fit(to_arg, instances@, labels, target@));
    assignment
}

/// Labels past the first `n` pairs do not matter.
proof fn lemma_bridged_prefix(
    pairs: Seq<(SchemeInstance, Bindings)>,
    l1: Seq<Seq<char>>,
    l2: Seq<Seq<char>>,
    target: Seq<char>,
    n: nat,
)
    requires
        n <= l1.len(),
        n <= l2.len(),
        forall|k: int| 0 <= k < n ==> l1[k] == l2[k],
    ensures
        bridged(pairs, l1, target, n) == bridged(pairs, l2, target, n),
    decreases n,
{
    if n > 0 {
        lemma_bridged_prefix(pairs, l1, l2, target, (n - 1) as nat);
    }
}

/// The value assignment that the instances of the default catalogue's
/// values scheme give.
pub fn from_scheme_instances<F: Fn(&SchemeInstance) -> String>(
    instances: &[(SchemeInstance, Bindings)],
    to_arg: F,
) -> (r: ValueAssignment)
    requires
        forall|i: int| 0 <= i < instances@.len() ==> (#[trigger] instances@[i]).1.wf(),
        forall|i: int| 0 <= i < instances@.len() ==> call_requires(to_arg, (&(#[trigger] instances@[i]).0,)),
    ensures
        r.wf(),
        exists|labels: Seq<String>| #[trigger] labels_fit(to_arg, instances@, labels, DEFAULT_VALUES_SCHEME_NAME@)
            && forall|a: Seq<char>| #[trigger] r.values_of(a)
                == (bridged(instances@, strings_view(labels), DEFAULT_VALUES_SCHEME_NAME@, instances@.len()))(a),
{
    from_scheme_instances_with_name(instances, to_arg, DEFAULT_VALUES_SCHEME_NAME)
}

} // verus!
