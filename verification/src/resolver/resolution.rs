//! What it means that the constants of an index are resolved, and the steps
//! by which the evaluator gets there.

use vstd::prelude::*;
use vstd::arithmetic::power2::pow2;
use crate::ast::{Operator, StatementView};
use crate::index::{lemma_types_decide, IndexView, VariableIndexEntryView};
use crate::resolver::const_evaluator::{
    spec_evaluate,
    EvaluationError,
    IllegalConstantView,
    LiteralValueView,
    RealValueView,
};
use crate::typesystem::DataTypeInformationView;

verus! {

/// The values of resolved constants, by qualified name.
pub type Constants = Map<Seq<char>, LiteralValueView>;

/// The mask that keeps the low `size` bits of an integer that is kept in 128
/// bits: `2^size - 1`, and all 128 bits for a larger size.
pub open spec fn truncation_mask(size: u32) -> i128 {
    if size >= 128 {
        -1i128
    } else {
        (pow2(size as nat) - 1) as i128
    }
}

/// The information of the type that a variable is declared with, aliases
/// followed, where the index holds that type.
pub open spec fn declared_type(index: IndexView, entry: VariableIndexEntryView) -> Option<
    DataTypeInformationView,
> {
    match index.effective_type(entry.data_type_name) {
        Some(data_type) => Some(data_type.information),
        None => None,
    }
}

/// An integer for a constant of an unsigned integer type keeps the low bits
/// that the type has; every other value stays as it is.
pub open spec fn spec_truncate(
    value: LiteralValueView,
    data_type: Option<DataTypeInformationView>,
) -> LiteralValueView {
    match (value, data_type) {
        (
            LiteralValueView::Int(v),
            Some(DataTypeInformationView::Integer { signed: false, size, .. }),
        ) => LiteralValueView::Int(v & truncation_mask(size)),
        _ => value,
    }
}

/// An integer for a constant of a floating-point type becomes a real; every
/// other value stays as it is.
pub open spec fn spec_cast_if_necessary(
    value: LiteralValueView,
    data_type: Option<DataTypeInformationView>,
) -> LiteralValueView {
    match (value, data_type) {
        (LiteralValueView::Int(v), Some(DataTypeInformationView::Float { .. })) => {
            LiteralValueView::Real(RealValueView::FromInt(v))
        },
        _ => value,
    }
}

/// The value that is stored for a constant whose initializer has the given value.
pub open spec fn stored_value(
    value: LiteralValueView,
    data_type: Option<DataTypeInformationView>,
) -> LiteralValueView {
    spec_cast_if_necessary(spec_truncate(value, data_type), data_type)
}

/// The value that a variable gets from its initializer, given the values of
/// the constants that are resolved; none where it has no initializer or the
/// initializer has no value.
pub open spec fn spec_resolve(
    index: IndexView,
    entry: VariableIndexEntryView,
    constants: Constants,
) -> Option<LiteralValueView> {
    match entry.initial_value {
        Some(initial) => match spec_evaluate(initial, constants) {
            Ok(Some(value)) => Some(stored_value(value, declared_type(index, entry))),
            _ => None,
        },
        None => None,
    }
}

/// Whether the initializer of the variable waits for a constant that is not resolved.
pub open spec fn waits(entry: VariableIndexEntryView, constants: Constants) -> bool {
    match entry.initial_value {
        Some(initial) => spec_evaluate(initial, constants) == Ok::<
            Option<LiteralValueView>,
            EvaluationError,
        >(None),
        None => false,
    }
}

/// What resolving the constants of an index gives: the values of the
/// constants that are resolved, their names in the order in which they were
/// resolved, the names of the constants that cannot be resolved, and the
/// constants whose initializer is in error, each with its error.
pub struct Resolution {
    pub constants: Constants,
    pub order: Seq<Seq<char>>,
    pub unresolvable: Seq<Seq<char>>,
    pub illegal: Seq<IllegalConstantView>,
}

impl Resolution {
    /// The resolution with one more resolved constant. A name that has a
    /// value already keeps its place in the order.
    pub open spec fn resolved(self, name: Seq<char>, value: LiteralValueView) -> Resolution {
        Resolution {
            constants: self.constants.insert(name, value),
            order: if self.constants.contains_key(name) {
                self.order
            } else {
                self.order.push(name)
            },
            unresolvable: self.unresolvable,
            illegal: self.illegal,
        }
    }

    /// The resolution with one more constant that cannot be resolved.
    pub open spec fn given_up(self, name: Seq<char>) -> Resolution {
        Resolution {
            constants: self.constants,
            order: self.order,
            unresolvable: self.unresolvable.push(name),
            illegal: self.illegal,
        }
    }

    /// The resolution with one more constant whose initializer is in error.
    pub open spec fn failed(self, name: Seq<char>, error: EvaluationError) -> Resolution {
        Resolution {
            constants: self.constants,
            order: self.order,
            unresolvable: self.unresolvable,
            illegal: self.illegal.push(IllegalConstantView { name, error }),
        }
    }

    /// The resolution with more constants that cannot be resolved.
    pub open spec fn all_given_up(self, names: Seq<Seq<char>>) -> Resolution {
        Resolution {
            constants: self.constants,
            order: self.order,
            unresolvable: self.unresolvable + names,
            illegal: self.illegal,
        }
    }
}

/// The names of the constants whose initializer is in error, in the order of the list.
pub open spec fn illegal_names(illegal: Seq<IllegalConstantView>) -> Seq<Seq<char>> {
    Seq::new(illegal.len(), |i: int| illegal[i].name)
}

/// The first step: of the variables from place `from` on, the places of the
/// constants with an initializer come behind `queue`, in the order of the
/// index, and the names of the constants without one behind `unresolvable`.
pub open spec fn spec_collect(
    index: IndexView,
    from: int,
    queue: Seq<int>,
    unresolvable: Seq<Seq<char>>,
) -> (Seq<int>, Seq<Seq<char>>)
    decreases index.variables.len() - from,
{
    if from < 0 || from >= index.variables.len() {
        (queue, unresolvable)
    } else if !index.variables[from].constant {
        spec_collect(index, from + 1, queue, unresolvable)
    } else if index.variables[from].initial_value is Some {
        spec_collect(index, from + 1, queue.push(from), unresolvable)
    } else {
        spec_collect(index, from + 1, queue, unresolvable.push(index.variables[from].name))
    }
}

/// The steps that follow, one for the first constant of the queue each. With
/// a value from its initializer it is resolved, and all that wait are to be
/// tried again. Waiting for another constant it goes to the back of the
/// queue. In error it leaves the queue for good and is reported with its
/// error. When the last `tries` steps were all of the second kind and `tries`
/// reaches the length of the queue, the constants of the queue cannot be
/// resolved; their names are listed in the order of the queue.
pub open spec fn spec_resolve_queue(
    index: IndexView,
    queue: Seq<int>,
    tries: nat,
    resolution: Resolution,
) -> Resolution
    decreases queue.len(), queue.len() - tries,
{
    if tries >= queue.len() {
        resolution.all_given_up(names_at(index, queue))
    } else {
        let entry = index.variables[queue[0]];
        let rest = queue.subrange(1, queue.len() as int);
        match entry.initial_value {
            None => spec_resolve_queue(index, rest, tries, resolution.given_up(entry.name)),
            Some(initial) => match spec_evaluate(initial, resolution.constants) {
                Ok(Some(value)) => spec_resolve_queue(
                    index,
                    rest,
                    0,
                    resolution.resolved(
                        entry.name,
                        stored_value(value, declared_type(index, entry)),
                    ),
                ),
                Ok(None) => spec_resolve_queue(index, rest.push(queue[0]), tries + 1, resolution),
                Err(error) => spec_resolve_queue(
                    index,
                    rest,
                    tries,
                    resolution.failed(entry.name, error),
                ),
            },
        }
    }
}

/// What the constants of the index resolve to.
pub open spec fn spec_evaluate_constants(index: IndexView) -> Resolution {
    let (queue, unresolvable) = spec_collect(index, 0, Seq::empty(), Seq::empty());
    spec_resolve_queue(
        index,
        queue,
        0,
        Resolution {
            constants: Map::empty(),
            order: Seq::empty(),
            unresolvable,
            illegal: Seq::empty(),
        },
    )
}

/// The constants that were resolved before the one at place `i` of the order.
pub open spec fn resolved_before(constants: Constants, order: Seq<Seq<char>>, i: int) -> Constants {
    constants.restrict(order.take(i).to_set())
}

/// Whether the initializer of the variable gave `error` when it was
/// evaluated with the first `n` resolved constants.
pub open spec fn in_error_at(
    entry: VariableIndexEntryView,
    constants: Constants,
    order: Seq<Seq<char>>,
    n: int,
    error: EvaluationError,
) -> bool {
    &&& 0 <= n <= order.len()
    &&& entry.initial_value is Some
    &&& spec_evaluate(entry.initial_value->Some_0, resolved_before(constants, order, n)) == Err::<
        Option<LiteralValueView>,
        EvaluationError,
    >(error)
}

/// Whether the variable is rightly reported with `error`: its initializer is
/// in error with all resolved constants, and `error` is what it gave when it
/// was evaluated, with the constants that were resolved by then.
pub open spec fn reported_with(
    entry: VariableIndexEntryView,
    constants: Constants,
    order: Seq<Seq<char>>,
    error: EvaluationError,
) -> bool {
    &&& entry.initial_value is Some
    &&& spec_evaluate(entry.initial_value->Some_0, constants) is Err
    &&& exists|n: int| #[trigger] in_error_at(entry, constants, order, n, error)
}

/// Whether the resolution is what the constants of the index resolve to:
///
/// - every constant of the index is in exactly one of the three lists, once,
///   and nothing else is; the resolved constants are those that have a value;
/// - the value of each resolved constant is the stored value of its
///   initializer, evaluated with the constants that stand before it in the order;
/// - a constant is unresolvable only if it has no initializer, or if its
///   initializer, evaluated with all resolved constants, waits for a constant
///   that is not resolved;
/// - a constant is reported as illegal only if its initializer is in error,
///   and with the error that its initializer gave.
pub open spec fn is_resolution(index: IndexView, resolution: Resolution) -> bool {
    let constants = resolution.constants;
    let order = resolution.order;
    let unresolvable = resolution.unresolvable;
    let illegal = illegal_names(resolution.illegal);
    &&& order.no_duplicates()
    &&& unresolvable.no_duplicates()
    &&& illegal.no_duplicates()
    &&& forall|name: Seq<char>| constants.contains_key(name) <==> order.contains(name)
    &&& forall|name: Seq<char>| !(order.contains(name) && unresolvable.contains(name))
    &&& forall|name: Seq<char>| !(order.contains(name) && illegal.contains(name))
    &&& forall|name: Seq<char>| !(unresolvable.contains(name) && illegal.contains(name))
    &&& forall|k: int|
        0 <= k < index.variables.len() && (#[trigger] index.variables[k]).constant
            ==> order.contains(index.variables[k].name) || unresolvable.contains(
            index.variables[k].name,
        ) || illegal.contains(index.variables[k].name)
    &&& forall|name: Seq<char>|
        order.contains(name) || unresolvable.contains(name) || illegal.contains(name)
            ==> is_constant_name(index, name)
    &&& forall|i: int, k: int|
        0 <= i < order.len() && 0 <= k < index.variables.len() && order[i]
            == index.variables[k].name ==> #[trigger] spec_resolve(
            index,
            index.variables[k],
            resolved_before(constants, order, i),
        ) == Some(constants[order[i]])
    &&& forall|k: int|
        0 <= k < index.variables.len() && unresolvable.contains(
            (#[trigger] index.variables[k]).name,
        ) ==> index.variables[k].initial_value is None || waits(index.variables[k], constants)
    &&& forall|j: int, k: int|
        0 <= j < resolution.illegal.len() && 0 <= k < index.variables.len()
            && resolution.illegal[j].name == index.variables[k].name ==> #[trigger] reported_with(
            index.variables[k],
            constants,
            order,
            resolution.illegal[j].error,
        )
}

/// Whether a constant of the index is called `name`.
pub open spec fn is_constant_name(index: IndexView, name: Seq<char>) -> bool {
    exists|k: int|
        0 <= k < index.variables.len() && (#[trigger] index.variables[k]).constant
            && index.variables[k].name == name
}

/// The names of the variables at the given places of the index.
pub open spec fn names_at(index: IndexView, places: Seq<int>) -> Seq<Seq<char>> {
    Seq::new(places.len(), |i: int| index.variables[places[i]].name)
}

/// The queue of places as integers.
pub open spec fn places(queue: Seq<usize>) -> Seq<int> {
    Seq::new(queue.len(), |i: int| queue[i] as int)
}

/// Whether the places are places of constants of the index, each at most once.
spec fn distinct_constants(index: IndexView, places: Seq<int>) -> bool {
    &&& forall|i: int|
        0 <= i < places.len() ==> 0 <= #[trigger] places[i] < index.variables.len()
            && index.variables[places[i]].constant
    &&& places.no_duplicates()
}

/// Whether no place is in both lists.
spec fn disjoint(a: Seq<int>, b: Seq<int>) -> bool {
    forall|i: int, j: int| 0 <= i < a.len() && 0 <= j < b.len() ==> a[i] != b[j]
}

/// The places of the constants of a state of the evaluator: those that wait
/// in the queue, those that got a value, in the order in which they got it,
/// those without an initializer, and those whose initializer is in error,
/// each with the number of constants that were resolved when it was evaluated.
struct Places {
    queue: Seq<int>,
    resolved: Seq<int>,
    failed: Seq<int>,
    illegal: Seq<int>,
    at: Seq<int>,
}

/// The state of the evaluator between two steps. The last `tries` constants
/// of the queue were tried with the constants as they are now, and wait still.
spec fn resolving(index: IndexView, p: Places, tries: nat, r: Resolution) -> bool {
    &&& index.names_unique()
    &&& distinct_constants(index, p.queue)
    &&& distinct_constants(index, p.resolved)
    &&& distinct_constants(index, p.failed)
    &&& distinct_constants(index, p.illegal)
    &&& disjoint(p.queue, p.resolved)
    &&& disjoint(p.queue, p.failed)
    &&& disjoint(p.queue, p.illegal)
    &&& disjoint(p.resolved, p.failed)
    &&& disjoint(p.resolved, p.illegal)
    &&& disjoint(p.failed, p.illegal)
    &&& forall|k: int|
        0 <= k < index.variables.len() && (#[trigger] index.variables[k]).constant
            ==> p.queue.contains(k) || p.resolved.contains(k) || p.failed.contains(k)
            || p.illegal.contains(k)
    &&& r.order == names_at(index, p.resolved)
    &&& r.unresolvable == names_at(index, p.failed)
    &&& illegal_names(r.illegal) == names_at(index, p.illegal)
    &&& forall|name: Seq<char>| r.constants.contains_key(name) <==> r.order.contains(name)
    &&& forall|j: int|
        0 <= j < p.queue.len() ==> (#[trigger] index.variables[p.queue[j]]).initial_value is Some
    &&& forall|i: int|
        0 <= i < p.resolved.len() ==> #[trigger] spec_resolve(
            index,
            index.variables[p.resolved[i]],
            resolved_before(r.constants, r.order, i),
        ) == Some(r.constants[r.order[i]])
    &&& forall|i: int|
        0 <= i < p.failed.len() ==> (#[trigger] index.variables[p.failed[i]]).initial_value is None
    &&& p.at.len() == p.illegal.len()
    &&& r.illegal.len() == p.illegal.len()
    &&& forall|i: int|
        0 <= i < p.illegal.len() ==> in_error_at(
            index.variables[#[trigger] p.illegal[i]],
            r.constants,
            r.order,
            p.at[i],
            r.illegal[i].error,
        )
    &&& tries <= p.queue.len()
    &&& forall|j: int|
        p.queue.len() - tries <= j < p.queue.len() ==> waits(
            #[trigger] index.variables[p.queue[j]],
            r.constants,
        )
}

/// More resolved constants change neither a value nor an error: an
/// initializer that has a value keeps it, and one that is in error stays in error.
pub proof fn lemma_evaluate_monotonic(initial: StatementView, fewer: Constants, more: Constants)
    requires
        fewer.submap_of(more),
    ensures
        spec_evaluate(initial, fewer) is Err ==> spec_evaluate(initial, more) is Err,
        spec_evaluate(initial, fewer) is Ok && spec_evaluate(initial, fewer)->Ok_0 is Some
            ==> spec_evaluate(initial, more) == spec_evaluate(initial, fewer),
    decreases initial,
{
    match initial {
        StatementView::BinaryExpression { operator, left, right } => {
            lemma_evaluate_monotonic(*left, fewer, more);
            lemma_evaluate_monotonic(*right, fewer, more);
        },
        StatementView::UnaryExpression { operator, value } => {
            lemma_evaluate_monotonic(*value, fewer, more);
        },
        _ => {},
    }
}

/// The constants that were resolved before a place of the order are among
/// all resolved constants.
proof fn lemma_resolved_before_is_part(constants: Constants, order: Seq<Seq<char>>, n: int)
    ensures
        resolved_before(constants, order, n).submap_of(constants),
{
    let before = resolved_before(constants, order, n);
    assert forall|key: Seq<char>| #[trigger]
        before.dom().contains(key) implies #[trigger] constants.dom().contains(key) && before[key]
        == constants[key] by {}
}

/// A newly resolved constant does not change what was resolved before any
/// place of the order as it was.
proof fn lemma_resolved_before_stable(
    constants: Constants,
    order: Seq<Seq<char>>,
    name: Seq<char>,
    value: LiteralValueView,
    n: int,
)
    requires
        0 <= n <= order.len(),
        !order.contains(name),
        forall|key: Seq<char>| constants.contains_key(key) <==> order.contains(key),
    ensures
        resolved_before(constants.insert(name, value), order.push(name), n) == resolved_before(
            constants,
            order,
            n,
        ),
        resolved_before(constants, order, order.len() as int) == constants,
{
    assert(order.push(name).take(n) =~= order.take(n));
    if order.take(n).contains(name) {
        let j = choose|j: int| 0 <= j < n && order.take(n)[j] == name;
        assert(order[j] == name);
    }
    assert(resolved_before(constants.insert(name, value), order.push(name), n)
        =~= resolved_before(constants, order, n));
    lemma_resolved_before_all(constants, order);
}

/// With all places of the order before it, every resolved constant was resolved before.
proof fn lemma_resolved_before_all(constants: Constants, order: Seq<Seq<char>>)
    requires
        forall|key: Seq<char>| constants.contains_key(key) <==> order.contains(key),
    ensures
        resolved_before(constants, order, order.len() as int) == constants,
{
    assert(order.take(order.len() as int) =~= order);
    assert forall|key: Seq<char>| order.to_set().contains(key) <==> order.contains(key) by {}
    assert(resolved_before(constants, order, order.len() as int) =~= constants);
}

/// The place in a queue of `n` constants from which the constant at place
/// `j` comes when the first constant goes to the back.
spec fn rotated(j: int, n: int) -> int {
    if j + 1 < n {
        j + 1
    } else {
        0
    }
}

/// The step for a constant that waits still: it goes to the back of the queue.
proof fn lemma_step_retry(index: IndexView, p: Places, tries: nat, r: Resolution)
    requires
        resolving(index, p, tries, r),
        tries < p.queue.len(),
        waits(index.variables[p.queue[0]], r.constants),
    ensures
        resolving(
            index,
            Places { queue: p.queue.subrange(1, p.queue.len() as int).push(p.queue[0]), ..p },
            tries + 1,
            r,
        ),
{
    let queue = p.queue;
    let next = queue.subrange(1, queue.len() as int).push(queue[0]);
    let n = queue.len() as int;
    assert(next.len() == n);
    assert forall|j: int| 0 <= j < n implies #[trigger] next[j] == queue[rotated(j, n)] by {}
    assert forall|i: int, j: int| 0 <= i < n && 0 <= j < n && i != j implies next[i] != next[j] by {
        assert(next[i] == queue[rotated(i, n)]);
        assert(next[j] == queue[rotated(j, n)]);
    }
    assert forall|i: int| 0 <= i < n implies 0 <= #[trigger] next[i] < index.variables.len()
        && index.variables[next[i]].constant && index.variables[next[i]].initial_value is Some by {
        assert(next[i] == queue[rotated(i, n)]);
    }
    assert forall|i: int, j: int| 0 <= i < n && 0 <= j < p.resolved.len() implies next[i]
        != p.resolved[j] by {
        assert(next[i] == queue[rotated(i, n)]);
    }
    assert forall|i: int, j: int| 0 <= i < n && 0 <= j < p.failed.len() implies next[i]
        != p.failed[j] by {
        assert(next[i] == queue[rotated(i, n)]);
    }
    assert forall|i: int, j: int| 0 <= i < n && 0 <= j < p.illegal.len() implies next[i]
        != p.illegal[j] by {
        assert(next[i] == queue[rotated(i, n)]);
    }
    assert forall|k: int| queue.contains(k) implies next.contains(k) by {
        let j = choose|j: int| 0 <= j < queue.len() && queue[j] == k;
        if j == 0 {
            assert(next[n - 1] == k);
        } else {
            assert(next[j - 1] == k);
        }
    }
    assert forall|j: int| n - (tries + 1) <= j < n implies waits(
        #[trigger] index.variables[next[j]],
        r.constants,
    ) by {
        assert(next[j] == queue[rotated(j, n)]);
    }
}

/// What is left of a queue without its first constant is a queue as before.
proof fn lemma_rest_of_queue(index: IndexView, p: Places, tries: nat, r: Resolution)
    requires
        resolving(index, p, tries, r),
        tries < p.queue.len(),
    ensures
        ({
            let rest = p.queue.subrange(1, p.queue.len() as int);
            &&& distinct_constants(index, rest)
            &&& disjoint(rest, p.resolved)
            &&& disjoint(rest, p.failed)
            &&& disjoint(rest, p.illegal)
            &&& !rest.contains(p.queue[0])
            &&& !p.resolved.contains(p.queue[0])
            &&& !p.failed.contains(p.queue[0])
            &&& !p.illegal.contains(p.queue[0])
            &&& forall|k: int| p.queue.contains(k) && k != p.queue[0] ==> rest.contains(k)
            &&& forall|j: int|
                0 <= j < rest.len() ==> (#[trigger] index.variables[rest[j]]).initial_value is Some
            &&& forall|j: int|
                rest.len() - tries <= j < rest.len() ==> waits(
                    #[trigger] index.variables[rest[j]],
                    r.constants,
                )
        }),
{
    let queue = p.queue;
    let rest = queue.subrange(1, queue.len() as int);
    assert forall|j: int| 0 <= j < rest.len() implies #[trigger] rest[j] == queue[j + 1] by {}
    assert forall|i: int, j: int| 0 <= i < rest.len() && 0 <= j < rest.len() && i != j implies rest[i]
        != rest[j] by {
        assert(rest[i] == queue[i + 1]);
        assert(rest[j] == queue[j + 1]);
    }
    assert forall|i: int| 0 <= i < rest.len() implies 0 <= #[trigger] rest[i]
        < index.variables.len() && index.variables[rest[i]].constant
        && index.variables[rest[i]].initial_value is Some by {
        assert(rest[i] == queue[i + 1]);
    }
    assert forall|i: int, j: int| 0 <= i < rest.len() && 0 <= j < p.resolved.len() implies rest[i]
        != p.resolved[j] by {
        assert(rest[i] == queue[i + 1]);
    }
    assert forall|i: int, j: int| 0 <= i < rest.len() && 0 <= j < p.failed.len() implies rest[i]
        != p.failed[j] by {
        assert(rest[i] == queue[i + 1]);
    }
    assert forall|i: int, j: int| 0 <= i < rest.len() && 0 <= j < p.illegal.len() implies rest[i]
        != p.illegal[j] by {
        assert(rest[i] == queue[i + 1]);
    }
    if rest.contains(queue[0]) {
        let j = choose|j: int| 0 <= j < rest.len() && rest[j] == queue[0];
        assert(queue[j + 1] == queue[0]);
    }
    if p.resolved.contains(queue[0]) {
        let j = choose|j: int| 0 <= j < p.resolved.len() && p.resolved[j] == queue[0];
        assert(queue[0] != p.resolved[j]);
    }
    if p.failed.contains(queue[0]) {
        let j = choose|j: int| 0 <= j < p.failed.len() && p.failed[j] == queue[0];
        assert(queue[0] != p.failed[j]);
    }
    if p.illegal.contains(queue[0]) {
        let j = choose|j: int| 0 <= j < p.illegal.len() && p.illegal[j] == queue[0];
        assert(queue[0] != p.illegal[j]);
    }
    assert forall|k: int| queue.contains(k) && k != queue[0] implies rest.contains(k) by {
        let j = choose|j: int| 0 <= j < queue.len() && queue[j] == k;
        assert(rest[j - 1] == k);
    }
    assert forall|j: int| rest.len() - tries <= j < rest.len() implies waits(
        #[trigger] index.variables[rest[j]],
        r.constants,
    ) by {
        assert(rest[j] == queue[j + 1]);
    }
}

/// A list of distinct constants with one more constant, which it did not
/// hold, is a list of distinct constants.
proof fn lemma_push_distinct(index: IndexView, places: Seq<int>, place: int)
    requires
        distinct_constants(index, places),
        !places.contains(place),
        0 <= place < index.variables.len(),
        index.variables[place].constant,
    ensures
        distinct_constants(index, places.push(place)),
        names_at(index, places.push(place)) == names_at(index, places).push(
            index.variables[place].name,
        ),
        forall|k: int| places.contains(k) || k == place ==> places.push(place).contains(k),
{
    let more = places.push(place);
    assert forall|i: int, j: int| 0 <= i < more.len() && 0 <= j < more.len() && i != j implies more[i]
        != more[j] by {
        if i < places.len() && j < places.len() {
        } else if i < places.len() {
            assert(places.contains(places[i]));
        } else {
            assert(places.contains(places[j]));
        }
    }
    assert(names_at(index, more) =~= names_at(index, places).push(index.variables[place].name));
    assert forall|k: int| places.contains(k) || k == place implies more.contains(k) by {
        if k == place {
            assert(more[places.len() as int] == k);
        } else {
            let j = choose|j: int| 0 <= j < places.len() && places[j] == k;
            assert(more[j] == k);
        }
    }
}

/// A list that shares no place with another one shares none with it after
/// it took a place that the other one does not hold.
proof fn lemma_push_disjoint(a: Seq<int>, b: Seq<int>, place: int)
    requires
        disjoint(a, b) || disjoint(b, a),
        !a.contains(place),
    ensures
        disjoint(a, b.push(place)),
        disjoint(b.push(place), a),
{
    let more = b.push(place);
    assert forall|i: int, j: int| 0 <= i < a.len() && 0 <= j < more.len() implies a[i]
        != more[j] by {
        if j == b.len() {
            assert(a.contains(a[i]));
        } else {
            assert(a[i] != b[j]);
        }
    }
    assert forall|i: int, j: int| 0 <= i < more.len() && 0 <= j < a.len() implies more[i]
        != a[j] by {
        assert(a[j] != more[i]);
    }
}

/// In an index of unique names, the constants at distinct places have distinct names.
proof fn lemma_names_distinct(index: IndexView, places: Seq<int>, place: int)
    requires
        index.names_unique(),
        distinct_constants(index, places),
        0 <= place < index.variables.len(),
    ensures
        names_at(index, places).no_duplicates(),
        names_at(index, places).contains(index.variables[place].name) <==> places.contains(place),
{
    let names = names_at(index, places);
    assert forall|i: int, j: int| 0 <= i < names.len() && 0 <= j < names.len() && i != j implies names[i]
        != names[j] by {
        assert(places[i] != places[j]);
    }
    if names.contains(index.variables[place].name) {
        let i = choose|i: int| 0 <= i < names.len() && names[i] == index.variables[place].name;
        assert(places[i] == place);
    }
    if places.contains(place) {
        let i = choose|i: int| 0 <= i < places.len() && places[i] == place;
        assert(names[i] == index.variables[place].name);
    }
}

/// The step for a constant whose initializer is in error: it leaves the
/// queue and is reported with the error.
proof fn lemma_step_illegal(
    index: IndexView,
    p: Places,
    tries: nat,
    r: Resolution,
    error: EvaluationError,
)
    requires
        resolving(index, p, tries, r),
        tries < p.queue.len(),
        index.variables[p.queue[0]].initial_value is Some,
        spec_evaluate(index.variables[p.queue[0]].initial_value->Some_0, r.constants) == Err::<
            Option<LiteralValueView>,
            EvaluationError,
        >(error),
    ensures
        resolving(
            index,
            Places {
                queue: p.queue.subrange(1, p.queue.len() as int),
                illegal: p.illegal.push(p.queue[0]),
                at: p.at.push(r.order.len() as int),
                ..p
            },
            tries,
            r.failed(index.variables[p.queue[0]].name, error),
        ),
{
    let rest = p.queue.subrange(1, p.queue.len() as int);
    let first = p.queue[0];
    lemma_rest_of_queue(index, p, tries, r);
    lemma_push_distinct(index, p.illegal, first);
    lemma_push_disjoint(rest, p.illegal, first);
    lemma_push_disjoint(p.resolved, p.illegal, first);
    lemma_push_disjoint(p.failed, p.illegal, first);
    lemma_resolved_before_all(r.constants, r.order);
    let more = p.illegal.push(first);
    let at = p.at.push(r.order.len() as int);
    let next = r.failed(index.variables[first].name, error);
    assert(illegal_names(next.illegal) =~= names_at(index, more));
    assert forall|i: int| 0 <= i < more.len() implies in_error_at(
        index.variables[#[trigger] more[i]],
        next.constants,
        next.order,
        at[i],
        next.illegal[i].error,
    ) by {
        if i < p.illegal.len() {
            assert(more[i] == p.illegal[i]);
            assert(in_error_at(
                index.variables[p.illegal[i]],
                r.constants,
                r.order,
                p.at[i],
                r.illegal[i].error,
            ));
        }
    }
}

/// The step for a constant whose initializer has a value: it leaves the
/// queue, its name gets the stored value, and every constant of the queue is
/// to be tried again.
proof fn lemma_step_resolved(
    index: IndexView,
    p: Places,
    tries: nat,
    r: Resolution,
    value: LiteralValueView,
)
    requires
        resolving(index, p, tries, r),
        tries < p.queue.len(),
        spec_resolve(index, index.variables[p.queue[0]], r.constants) == Some(value),
    ensures
        !r.constants.contains_key(index.variables[p.queue[0]].name),
        resolving(
            index,
            Places {
                queue: p.queue.subrange(1, p.queue.len() as int),
                resolved: p.resolved.push(p.queue[0]),
                ..p
            },
            0,
            r.resolved(index.variables[p.queue[0]].name, value),
        ),
{
    let rest = p.queue.subrange(1, p.queue.len() as int);
    let first = p.queue[0];
    let name = index.variables[first].name;
    let more = p.resolved.push(first);
    let constants = r.constants;
    let order = r.order;
    let new_constants = constants.insert(name, value);
    let new_order = order.push(name);
    lemma_rest_of_queue(index, p, tries, r);
    lemma_push_distinct(index, p.resolved, first);
    lemma_push_disjoint(rest, p.resolved, first);
    lemma_push_disjoint(p.failed, p.resolved, first);
    lemma_push_disjoint(p.illegal, p.resolved, first);
    lemma_names_distinct(index, p.resolved, first);
    assert(!order.contains(name));
    assert(!constants.contains_key(name));
    let next = r.resolved(name, value);
    assert(next.constants == new_constants);
    assert(next.order == new_order);
    assert forall|n: Seq<char>| new_constants.contains_key(n) <==> new_order.contains(n) by {
        if n == name {
            assert(new_order[order.len() as int] == name);
        } else {
            if order.contains(n) {
                let i = choose|i: int| 0 <= i < order.len() && order[i] == n;
                assert(new_order[i] == n);
            }
            if new_order.contains(n) {
                let i = choose|i: int| 0 <= i < new_order.len() && new_order[i] == n;
                assert(order[i] == n);
            }
        }
    }
    assert forall|i: int| 0 <= i < more.len() implies #[trigger] spec_resolve(
        index,
        index.variables[more[i]],
        resolved_before(new_constants, new_order, i),
    ) == Some(new_constants[new_order[i]]) by {
        lemma_resolved_before_stable(constants, order, name, value, i);
        if i < p.resolved.len() {
            assert(order.contains(order[i]));
            assert(more[i] == p.resolved[i]);
            assert(spec_resolve(
                index,
                index.variables[p.resolved[i]],
                resolved_before(constants, order, i),
            ) == Some(constants[order[i]]));
        }
    }
    assert forall|i: int| 0 <= i < p.illegal.len() implies in_error_at(
        index.variables[#[trigger] p.illegal[i]],
        new_constants,
        new_order,
        p.at[i],
        next.illegal[i].error,
    ) by {
        assert(in_error_at(
            index.variables[p.illegal[i]],
            constants,
            order,
            p.at[i],
            r.illegal[i].error,
        ));
        lemma_resolved_before_stable(constants, order, name, value, p.at[i]);
    }
}

/// The end: when every constant of the queue was tried with the constants as
/// they are and waits still, none of them will ever get a value. With their
/// names behind those that cannot be resolved, the constants are resolved.
proof fn lemma_finish(index: IndexView, p: Places, tries: nat, r: Resolution)
    requires
        resolving(index, p, tries, r),
        tries >= p.queue.len(),
    ensures
        is_resolution(index, r.all_given_up(names_at(index, p.queue))),
{
    let end = r.all_given_up(names_at(index, p.queue));
    let constants = r.constants;
    let order = r.order;
    let all = end.unresolvable;
    let illegal = illegal_names(r.illegal);
    let left = p.failed + p.queue;
    assert(all =~= names_at(index, left));
    assert forall|i: int, j: int| 0 <= i < left.len() && 0 <= j < left.len() && i != j implies left[i]
        != left[j] by {
        if i < p.failed.len() && j >= p.failed.len() {
            assert(p.queue[j - p.failed.len()] != p.failed[i]);
        }
        if j < p.failed.len() && i >= p.failed.len() {
            assert(p.queue[i - p.failed.len()] != p.failed[j]);
        }
    }
    assert(distinct_constants(index, left));
    assert forall|k: int| left.contains(k) <==> p.failed.contains(k) || p.queue.contains(k) by {
        if left.contains(k) {
            let i = choose|i: int| 0 <= i < left.len() && left[i] == k;
            if i < p.failed.len() {
                assert(p.failed[i] == k);
            } else {
                assert(p.queue[i - p.failed.len()] == k);
            }
        }
        if p.failed.contains(k) {
            let i = choose|i: int| 0 <= i < p.failed.len() && p.failed[i] == k;
            assert(left[i] == k);
        }
        if p.queue.contains(k) {
            let i = choose|i: int| 0 <= i < p.queue.len() && p.queue[i] == k;
            assert(left[i + p.failed.len()] == k);
        }
    }
    assert forall|k: int| 0 <= k < index.variables.len() implies (all.contains(
        (#[trigger] index.variables[k]).name,
    ) <==> left.contains(k)) && (order.contains(index.variables[k].name) <==> p.resolved.contains(
        k,
    )) && (illegal.contains(index.variables[k].name) <==> p.illegal.contains(k)) by {
        lemma_names_distinct(index, left, k);
        lemma_names_distinct(index, p.resolved, k);
        lemma_names_distinct(index, p.illegal, k);
    }
    if index.variables.len() > 0 {
        lemma_names_distinct(index, left, 0);
        lemma_names_distinct(index, p.resolved, 0);
        lemma_names_distinct(index, p.illegal, 0);
    } else {
        assert(left.len() == 0) by {
            if left.len() > 0 {
                assert(0 <= left[0] < index.variables.len());
            }
        }
        assert(p.resolved.len() == 0) by {
            if p.resolved.len() > 0 {
                assert(0 <= p.resolved[0] < index.variables.len());
            }
        }
        assert(p.illegal.len() == 0) by {
            if p.illegal.len() > 0 {
                assert(0 <= p.illegal[0] < index.variables.len());
            }
        }
    }
    assert forall|name: Seq<char>|
        order.contains(name) || all.contains(name) || illegal.contains(
            name,
        ) implies is_constant_name(index, name) by {
        if order.contains(name) {
            let i = choose|i: int| 0 <= i < order.len() && order[i] == name;
            assert(index.variables[p.resolved[i]].constant);
        } else if all.contains(name) {
            let j = choose|j: int| 0 <= j < all.len() && all[j] == name;
            assert(index.variables[left[j]].constant);
        } else {
            let j = choose|j: int| 0 <= j < illegal.len() && illegal[j] == name;
            assert(names_at(index, p.illegal)[j] == name);
            assert(index.variables[p.illegal[j]].constant);
        }
    }
    assert forall|name: Seq<char>| !(order.contains(name) && all.contains(name)) by {
        if order.contains(name) && all.contains(name) {
            let i = choose|i: int| 0 <= i < order.len() && order[i] == name;
            let j = choose|j: int| 0 <= j < all.len() && all[j] == name;
            assert(index.variables[p.resolved[i]].name == index.variables[left[j]].name);
            assert(p.resolved[i] == left[j]);
            assert(left.contains(left[j]));
            assert(p.resolved.contains(p.resolved[i]));
            if j < p.failed.len() {
                assert(p.resolved[i] != p.failed[j]);
            } else {
                assert(p.queue[j - p.failed.len()] != p.resolved[i]);
            }
        }
    }
    assert forall|name: Seq<char>| !(order.contains(name) && illegal.contains(name)) by {
        if order.contains(name) && illegal.contains(name) {
            let i = choose|i: int| 0 <= i < order.len() && order[i] == name;
            let j = choose|j: int| 0 <= j < illegal.len() && illegal[j] == name;
            assert(names_at(index, p.illegal)[j] == name);
            assert(index.variables[p.resolved[i]].name == index.variables[p.illegal[j]].name);
            assert(p.resolved[i] == p.illegal[j]);
        }
    }
    assert forall|name: Seq<char>| !(all.contains(name) && illegal.contains(name)) by {
        if all.contains(name) && illegal.contains(name) {
            let i = choose|i: int| 0 <= i < all.len() && all[i] == name;
            let j = choose|j: int| 0 <= j < illegal.len() && illegal[j] == name;
            assert(names_at(index, p.illegal)[j] == name);
            assert(index.variables[left[i]].name == index.variables[p.illegal[j]].name);
            assert(left[i] == p.illegal[j]);
            assert(left.contains(left[i]));
            if i < p.failed.len() {
                assert(p.failed[i] != p.illegal[j]);
            } else {
                assert(p.queue[i - p.failed.len()] != p.illegal[j]);
            }
        }
    }
    assert forall|i: int, k: int|
        0 <= i < order.len() && 0 <= k < index.variables.len() && order[i]
            == index.variables[k].name implies #[trigger] spec_resolve(
        index,
        index.variables[k],
        resolved_before(constants, order, i),
    ) == Some(constants[order[i]]) by {
        assert(index.variables[p.resolved[i]].name == index.variables[k].name);
        assert(p.resolved[i] == k);
    }
    assert forall|k: int|
        0 <= k < index.variables.len() && all.contains(
            (#[trigger] index.variables[k]).name,
        ) implies index.variables[k].initial_value is None || waits(
        index.variables[k],
        constants,
    ) by {
        assert(left.contains(k));
        if p.failed.contains(k) {
            let i = choose|i: int| 0 <= i < p.failed.len() && p.failed[i] == k;
            assert(index.variables[p.failed[i]].initial_value is None);
        } else {
            let j = choose|j: int| 0 <= j < p.queue.len() && p.queue[j] == k;
            assert(waits(index.variables[p.queue[j]], constants));
        }
    }
    assert forall|j: int, k: int|
        0 <= j < r.illegal.len() && 0 <= k < index.variables.len() && r.illegal[j].name
            == index.variables[k].name implies #[trigger] reported_with(
        index.variables[k],
        constants,
        order,
        r.illegal[j].error,
    ) by {
        assert(illegal[j] == names_at(index, p.illegal)[j]);
        assert(index.variables[p.illegal[j]].name == index.variables[k].name);
        assert(p.illegal[j] == k);
        assert(in_error_at(index.variables[k], constants, order, p.at[j], r.illegal[j].error));
        lemma_resolved_before_is_part(constants, order, p.at[j]);
        lemma_evaluate_monotonic(
            index.variables[k].initial_value->Some_0,
            resolved_before(constants, order, p.at[j]),
            constants,
        );
    }
}

/// Whether the places are below `bound` and stand in rising order.
spec fn rising_below(places: Seq<int>, bound: int) -> bool {
    &&& forall|j: int| 0 <= j < places.len() ==> 0 <= #[trigger] places[j] < bound
    &&& forall|i: int, j: int| 0 <= i < j < places.len() ==> places[i] < places[j]
}

/// The places of the constants without an initializer from place `from` on,
/// behind `failed`.
spec fn spec_collect_failed(index: IndexView, from: int, failed: Seq<int>) -> Seq<int>
    decreases index.variables.len() - from,
{
    if from < 0 || from >= index.variables.len() {
        failed
    } else if index.variables[from].constant && index.variables[from].initial_value is None {
        spec_collect_failed(index, from + 1, failed.push(from))
    } else {
        spec_collect_failed(index, from + 1, failed)
    }
}

/// After the first step the evaluator is in a state from which its steps go on.
proof fn lemma_collect(index: IndexView, from: int, queue: Seq<int>, failed: Seq<int>)
    requires
        index.names_unique(),
        0 <= from <= index.variables.len(),
        rising_below(queue, from),
        rising_below(failed, from),
        forall|j: int|
            0 <= j < queue.len() ==> (#[trigger] index.variables[queue[j]]).constant
                && index.variables[queue[j]].initial_value is Some,
        forall|j: int|
            0 <= j < failed.len() ==> (#[trigger] index.variables[failed[j]]).constant
                && index.variables[failed[j]].initial_value is None,
        forall|c: int|
            0 <= c < from && (#[trigger] index.variables[c]).constant ==> queue.contains(c)
                || failed.contains(c),
    ensures
        ({
            let (all, unresolvable) = spec_collect(index, from, queue, names_at(index, failed));
            resolving(
                index,
                Places {
                    queue: all,
                    resolved: Seq::empty(),
                    failed: spec_collect_failed(index, from, failed),
                    illegal: Seq::empty(),
                    at: Seq::empty(),
                },
                0,
                Resolution {
                    constants: Map::empty(),
                    order: Seq::empty(),
                    unresolvable,
                    illegal: Seq::empty(),
                },
            )
        }),
    decreases index.variables.len() - from,
{
    if from == index.variables.len() {
        assert(Seq::<Seq<char>>::empty() =~= names_at(index, Seq::empty()));
        assert(illegal_names(Seq::empty()) =~= names_at(index, Seq::empty()));
        assert forall|i: int, j: int|
            0 <= i < queue.len() && 0 <= j < queue.len() && i != j implies queue[i] != queue[j] by {
            if i < j {
                assert(queue[i] < queue[j]);
            } else {
                assert(queue[j] < queue[i]);
            }
        }
        assert forall|i: int, j: int|
            0 <= i < failed.len() && 0 <= j < failed.len() && i != j implies failed[i]
            != failed[j] by {
            if i < j {
                assert(failed[i] < failed[j]);
            } else {
                assert(failed[j] < failed[i]);
            }
        }
        assert forall|i: int, j: int| 0 <= i < queue.len() && 0 <= j < failed.len() implies queue[i]
            != failed[j] by {
            assert(index.variables[queue[i]].initial_value is Some);
            assert(index.variables[failed[j]].initial_value is None);
        }
    } else {
        let entry = index.variables[from];
        let more_queue = if entry.constant && entry.initial_value is Some {
            queue.push(from)
        } else {
            queue
        };
        let more_failed = if entry.constant && entry.initial_value is None {
            failed.push(from)
        } else {
            failed
        };
        assert(names_at(index, more_failed) =~= if entry.constant
            && entry.initial_value is None {
            names_at(index, failed).push(entry.name)
        } else {
            names_at(index, failed)
        });
        assert forall|c: int|
            0 <= c < from + 1 && (#[trigger] index.variables[c]).constant implies more_queue.contains(
            c,
        ) || more_failed.contains(c) by {
            if c < from {
                if queue.contains(c) {
                    let j = choose|j: int| 0 <= j < queue.len() && queue[j] == c;
                    assert(more_queue[j] == c);
                } else {
                    let j = choose|j: int| 0 <= j < failed.len() && failed[j] == c;
                    assert(more_failed[j] == c);
                }
            } else if entry.initial_value is Some {
                assert(more_queue[queue.len() as int] == c);
            } else {
                assert(more_failed[failed.len() as int] == c);
            }
        }
        lemma_collect(index, from + 1, more_queue, more_failed);
    }
}

/// From every state in which the evaluator can be between two steps, its
/// steps end in a resolution of the constants.
proof fn lemma_steps_resolve(index: IndexView, p: Places, tries: nat, r: Resolution)
    requires
        resolving(index, p, tries, r),
    ensures
        is_resolution(index, spec_resolve_queue(index, p.queue, tries, r)),
    decreases p.queue.len(), p.queue.len() - tries,
{
    let queue = p.queue;
    if tries >= queue.len() {
        lemma_finish(index, p, tries, r);
    } else {
        let entry = index.variables[queue[0]];
        let rest = queue.subrange(1, queue.len() as int);
        match spec_evaluate(entry.initial_value->Some_0, r.constants) {
            Ok(Some(value)) => {
                let stored = stored_value(value, declared_type(index, entry));
                lemma_step_resolved(index, p, tries, r, stored);
                lemma_steps_resolve(
                    index,
                    Places { queue: rest, resolved: p.resolved.push(queue[0]), ..p },
                    0,
                    r.resolved(entry.name, stored),
                );
            },
            Ok(None) => {
                lemma_step_retry(index, p, tries, r);
                lemma_steps_resolve(
                    index,
                    Places { queue: rest.push(queue[0]), ..p },
                    tries + 1,
                    r,
                );
            },
            Err(error) => {
                lemma_step_illegal(index, p, tries, r, error);
                lemma_steps_resolve(
                    index,
                    Places {
                        queue: rest,
                        illegal: p.illegal.push(queue[0]),
                        at: p.at.push(r.order.len() as int),
                        ..p
                    },
                    tries,
                    r.failed(entry.name, error),
                );
            },
        }
    }
}

/// What the evaluator computes is a resolution of the constants: in an index
/// of unique names every constant is resolved, listed as unresolvable or
/// reported with the error of its initializer; each value is the stored value
/// of its initializer; and a constant is unresolvable only for want of an
/// initializer or of a constant that it refers to.
pub proof fn lemma_constants_resolve(index: IndexView)
    requires
        index.names_unique(),
    ensures
        is_resolution(index, spec_evaluate_constants(index)),
{
    assert(names_at(index, Seq::empty()) =~= Seq::<Seq<char>>::empty());
    lemma_collect(index, 0, Seq::empty(), Seq::empty());
    let (queue, unresolvable) = spec_collect(index, 0, Seq::empty(), Seq::empty());
    lemma_steps_resolve(
        index,
        Places {
            queue,
            resolved: Seq::empty(),
            failed: spec_collect_failed(index, 0, Seq::empty()),
            illegal: Seq::empty(),
            at: Seq::empty(),
        },
        0,
        Resolution {
            constants: Map::empty(),
            order: Seq::empty(),
            unresolvable,
            illegal: Seq::empty(),
        },
    );
}

/// Whether two indexes declare the same: they hold the same types in the same
/// order, and each variable of one is a variable of the other. The order of
/// the variables is free.
pub open spec fn same_declarations(a: IndexView, b: IndexView) -> bool {
    &&& a.types == b.types
    &&& forall|i: int|
        0 <= i < a.variables.len() ==> b.variables.contains(#[trigger] a.variables[i])
    &&& forall|i: int|
        0 <= i < b.variables.len() ==> a.variables.contains(#[trigger] b.variables[i])
}

/// The first `n` constants that one resolution resolved have the same values
/// in every resolution of the same declarations.
proof fn lemma_resolved_in_both(a: IndexView, ra: Resolution, b: IndexView, rb: Resolution, n: int)
    requires
        same_declarations(a, b),
        is_resolution(a, ra),
        is_resolution(b, rb),
        0 <= n <= ra.order.len(),
    ensures
        forall|i: int|
            0 <= i < n ==> rb.constants.contains_key(#[trigger] ra.order[i])
                && rb.constants[ra.order[i]] == ra.constants[ra.order[i]],
    decreases n,
{
    if n > 0 {
        lemma_resolved_in_both(a, ra, b, rb, n - 1);
        let i = n - 1;
        let name = ra.order[i];
        assert(ra.order.contains(name));
        assert(is_constant_name(a, name));
        let ka = choose|k: int|
            0 <= k < a.variables.len() && (#[trigger] a.variables[k]).constant
                && a.variables[k].name == name;
        let entry = a.variables[ka];
        assert(b.variables.contains(entry));
        let kb = choose|k: int| 0 <= k < b.variables.len() && b.variables[k] == entry;
        let before_a = resolved_before(ra.constants, ra.order, i);
        assert(spec_resolve(a, a.variables[ka], before_a) == Some(ra.constants[ra.order[i]]));
        assert(before_a.submap_of(rb.constants)) by {
            assert forall|key: Seq<char>| #[trigger]
                before_a.dom().contains(key) implies #[trigger] rb.constants.dom().contains(key)
                && before_a[key] == rb.constants[key] by {
                assert(ra.order.take(i).contains(key));
                let j = choose|j: int| 0 <= j < i && ra.order.take(i)[j] == key;
                assert(ra.order[j] == key);
            }
        }
        let initial = entry.initial_value->Some_0;
        lemma_evaluate_monotonic(initial, before_a, rb.constants);
        lemma_types_decide(a, b, entry.data_type_name);
        assert(spec_resolve(b, b.variables[kb], rb.constants) == Some(ra.constants[name]));
        if rb.unresolvable.contains(name) {
            assert(b.variables[kb].initial_value is None || waits(b.variables[kb], rb.constants));
        }
        if illegal_names(rb.illegal).contains(name) {
            let j = choose|j: int|
                0 <= j < illegal_names(rb.illegal).len() && illegal_names(rb.illegal)[j] == name;
            assert(rb.illegal[j].name == b.variables[kb].name);
            assert(reported_with(b.variables[kb], rb.constants, rb.order, rb.illegal[j].error));
        }
        assert(rb.order.contains(name));
        let j = choose|j: int| 0 <= j < rb.order.len() && rb.order[j] == name;
        let before_b = resolved_before(rb.constants, rb.order, j);
        assert(spec_resolve(b, b.variables[kb], before_b) == Some(rb.constants[rb.order[j]]));
        lemma_resolved_before_is_part(rb.constants, rb.order, j);
        lemma_evaluate_monotonic(initial, before_b, rb.constants);
    }
}

/// One resolution holds every constant that another resolution of the same
/// declarations holds, with the same value.
proof fn lemma_resolution_includes(a: IndexView, ra: Resolution, b: IndexView, rb: Resolution)
    requires
        same_declarations(a, b),
        is_resolution(a, ra),
        is_resolution(b, rb),
    ensures
        ra.constants.submap_of(rb.constants),
{
    lemma_resolved_in_both(a, ra, b, rb, ra.order.len() as int);
    assert forall|key: Seq<char>| #[trigger]
        ra.constants.dom().contains(key) implies #[trigger] rb.constants.dom().contains(key)
        && ra.constants[key] == rb.constants[key] by {
        assert(ra.constants.contains_key(key));
        assert(ra.order.contains(key));
        let i = choose|i: int| 0 <= i < ra.order.len() && ra.order[i] == key;
        assert(rb.constants.contains_key(ra.order[i]));
    }
}

/// Of two resolutions of the same declarations with the same values, what
/// one cannot resolve the other cannot resolve either, and what one reports
/// as illegal the other reports too.
proof fn lemma_same_lists(a: IndexView, ra: Resolution, b: IndexView, rb: Resolution)
    requires
        same_declarations(a, b),
        is_resolution(a, ra),
        is_resolution(b, rb),
        ra.constants == rb.constants,
    ensures
        forall|name: Seq<char>|
            ra.unresolvable.contains(name) ==> rb.unresolvable.contains(name),
        forall|name: Seq<char>|
            illegal_names(ra.illegal).contains(name) ==> illegal_names(rb.illegal).contains(name),
{
    assert forall|name: Seq<char>|
        ra.unresolvable.contains(name) || illegal_names(ra.illegal).contains(
            name,
        ) implies (ra.unresolvable.contains(name) ==> rb.unresolvable.contains(name)) && (
    illegal_names(ra.illegal).contains(name) ==> illegal_names(rb.illegal).contains(name)) by {
        assert(is_constant_name(a, name));
        let ka = choose|k: int|
            0 <= k < a.variables.len() && (#[trigger] a.variables[k]).constant
                && a.variables[k].name == name;
        let entry = a.variables[ka];
        assert(b.variables.contains(entry));
        let kb = choose|k: int| 0 <= k < b.variables.len() && b.variables[k] == entry;
        assert(b.variables[kb].constant);
        if rb.order.contains(name) {
            assert(rb.constants.contains_key(name));
            assert(ra.order.contains(name));
        }
        if ra.unresolvable.contains(name) {
            assert(entry.initial_value is None || waits(a.variables[ka], ra.constants));
        }
        if illegal_names(ra.illegal).contains(name) {
            let j = choose|j: int|
                0 <= j < illegal_names(ra.illegal).len() && illegal_names(ra.illegal)[j] == name;
            assert(ra.illegal[j].name == a.variables[ka].name);
            assert(reported_with(a.variables[ka], ra.constants, ra.order, ra.illegal[j].error));
        }
        if rb.unresolvable.contains(name) {
            assert(entry.initial_value is None || waits(b.variables[kb], rb.constants));
        }
        if illegal_names(rb.illegal).contains(name) {
            let j = choose|j: int|
                0 <= j < illegal_names(rb.illegal).len() && illegal_names(rb.illegal)[j] == name;
            assert(rb.illegal[j].name == b.variables[kb].name);
            assert(reported_with(b.variables[kb], rb.constants, rb.order, rb.illegal[j].error));
        }
    }
}

/// The order in which the constants are declared does not matter: two
/// resolutions of indexes that declare the same give every constant the same
/// value, leave the same constants unresolved and report the same constants
/// as illegal.
pub proof fn lemma_resolution_is_unique(a: IndexView, ra: Resolution, b: IndexView, rb: Resolution)
    requires
        same_declarations(a, b),
        is_resolution(a, ra),
        is_resolution(b, rb),
    ensures
        ra.constants == rb.constants,
        ra.unresolvable.to_set() == rb.unresolvable.to_set(),
        illegal_names(ra.illegal).to_set() == illegal_names(rb.illegal).to_set(),
{
    lemma_resolution_includes(a, ra, b, rb);
    lemma_resolution_includes(b, rb, a, ra);
    assert(ra.constants =~= rb.constants);
    lemma_same_lists(a, ra, b, rb);
    lemma_same_lists(b, rb, a, ra);
    assert(ra.unresolvable.to_set() =~= rb.unresolvable.to_set());
    assert(illegal_names(ra.illegal).to_set() =~= illegal_names(rb.illegal).to_set());
}

/// The order in which constants are declared does not matter: for two
/// indexes that declare the same, the evaluator computes the same values,
/// the same constants stay unresolved, and the same constants are reported
/// as illegal.
pub proof fn lemma_order_of_declarations_does_not_matter(a: IndexView, b: IndexView)
    requires
        a.names_unique(),
        b.names_unique(),
        same_declarations(a, b),
    ensures
        spec_evaluate_constants(a).constants == spec_evaluate_constants(b).constants,
        spec_evaluate_constants(a).unresolvable.to_set() == spec_evaluate_constants(
            b,
        ).unresolvable.to_set(),
        illegal_names(spec_evaluate_constants(a).illegal).to_set() == illegal_names(
            spec_evaluate_constants(b).illegal,
        ).to_set(),
{
    lemma_constants_resolve(a);
    lemma_constants_resolve(b);
    lemma_resolution_is_unique(a, spec_evaluate_constants(a), b, spec_evaluate_constants(b));
}

/// Each list holds exactly the constants that belong in it. With all resolved
/// constants at hand, a constant is resolved exactly if its initializer has a
/// value; it is unresolvable exactly if it has no initializer or its
/// initializer waits for a constant that is not resolved; and it is reported
/// as illegal exactly if its initializer is in error.
pub proof fn lemma_lists_are_exact(index: IndexView, resolution: Resolution, k: int)
    requires
        is_resolution(index, resolution),
        0 <= k < index.variables.len(),
        index.variables[k].constant,
    ensures
        resolution.constants.contains_key(index.variables[k].name) <==> spec_resolve(
            index,
            index.variables[k],
            resolution.constants,
        ) is Some,
        resolution.unresolvable.contains(index.variables[k].name)
            <==> index.variables[k].initial_value is None || waits(
            index.variables[k],
            resolution.constants,
        ),
        illegal_names(resolution.illegal).contains(index.variables[k].name)
            <==> index.variables[k].initial_value is Some && spec_evaluate(
            index.variables[k].initial_value->Some_0,
            resolution.constants,
        ) is Err,
{
    let name = index.variables[k].name;
    let constants = resolution.constants;
    let order = resolution.order;
    let illegal = illegal_names(resolution.illegal);
    if order.contains(name) {
        let i = choose|i: int| 0 <= i < order.len() && order[i] == name;
        let before = resolved_before(constants, order, i);
        assert(spec_resolve(index, index.variables[k], before) == Some(constants[order[i]]));
        lemma_resolved_before_is_part(constants, order, i);
        lemma_evaluate_monotonic(index.variables[k].initial_value->Some_0, before, constants);
    }
    if illegal.contains(name) {
        let j = choose|j: int| 0 <= j < illegal.len() && illegal[j] == name;
        assert(resolution.illegal[j].name == index.variables[k].name);
        assert(reported_with(index.variables[k], constants, order, resolution.illegal[j].error));
    }
}

/// A constant whose initializer is in error reaches the caller as an error:
/// in every resolution it is reported as illegal, with an error of its
/// initializer, and it is neither resolved nor listed as unresolvable. Such
/// an error does not wait for other constants; it stays whatever they
/// resolve to.
pub proof fn lemma_error_is_reported(index: IndexView, resolution: Resolution, k: int)
    requires
        is_resolution(index, resolution),
        0 <= k < index.variables.len(),
        index.variables[k].constant,
        index.variables[k].initial_value is Some,
        spec_evaluate(index.variables[k].initial_value->Some_0, resolution.constants) is Err,
    ensures
        illegal_names(resolution.illegal).contains(index.variables[k].name),
        !resolution.unresolvable.contains(index.variables[k].name),
        !resolution.constants.contains_key(index.variables[k].name),
{
    let name = index.variables[k].name;
    let initial = index.variables[k].initial_value->Some_0;
    let constants = resolution.constants;
    let order = resolution.order;
    if order.contains(name) {
        let i = choose|i: int| 0 <= i < order.len() && order[i] == name;
        let before = resolved_before(constants, order, i);
        assert(spec_resolve(index, index.variables[k], before) == Some(constants[order[i]]));
        lemma_resolved_before_is_part(constants, order, i);
        lemma_evaluate_monotonic(initial, before, constants);
    }
}

/// An initializer that is in error before any constant is resolved is in
/// error for good, so its constant is reported as illegal.
pub proof fn lemma_error_from_the_start_is_reported(
    index: IndexView,
    resolution: Resolution,
    k: int,
)
    requires
        is_resolution(index, resolution),
        0 <= k < index.variables.len(),
        index.variables[k].constant,
        index.variables[k].initial_value is Some,
        spec_evaluate(index.variables[k].initial_value->Some_0, Map::empty()) is Err,
    ensures
        illegal_names(resolution.illegal).contains(index.variables[k].name),
        !resolution.unresolvable.contains(index.variables[k].name),
        !resolution.constants.contains_key(index.variables[k].name),
{
    assert(Map::<Seq<char>, LiteralValueView>::empty().submap_of(resolution.constants));
    lemma_evaluate_monotonic(
        index.variables[k].initial_value->Some_0,
        Map::empty(),
        resolution.constants,
    );
    lemma_error_is_reported(index, resolution, k);
}

/// A constant that is initialized with itself is never resolved, and it is
/// no error: it is listed as unresolvable.
pub proof fn lemma_self_reference_is_unresolvable(index: IndexView, resolution: Resolution, k: int)
    requires
        is_resolution(index, resolution),
        0 <= k < index.variables.len(),
        index.variables[k].constant,
        index.variables[k].initial_value == Some(
            StatementView::Reference { name: index.variables[k].name },
        ),
    ensures
        resolution.unresolvable.contains(index.variables[k].name),
        !resolution.constants.contains_key(index.variables[k].name),
        !illegal_names(resolution.illegal).contains(index.variables[k].name),
{
    let name = index.variables[k].name;
    let constants = resolution.constants;
    let order = resolution.order;
    if order.contains(name) {
        let i = choose|i: int| 0 <= i < order.len() && order[i] == name;
        let before = resolved_before(constants, order, i);
        assert(spec_resolve(index, index.variables[k], before) == Some(constants[order[i]]));
        if order.take(i).contains(name) {
            let j = choose|j: int| 0 <= j < i && order.take(i)[j] == name;
            assert(order[j] == order[i]);
        }
        assert(!before.contains_key(name));
    }
    if illegal_names(resolution.illegal).contains(name) {
        let j = choose|j: int|
            0 <= j < illegal_names(resolution.illegal).len() && illegal_names(
                resolution.illegal,
            )[j] == name;
        assert(resolution.illegal[j].name == index.variables[k].name);
        assert(reported_with(index.variables[k], constants, order, resolution.illegal[j].error));
    }
}

/// Two reals are never compared for equality: where both operands of `=` or
/// `<>` have real values, the expression is in error, and does not wait for
/// anything.
pub proof fn lemma_real_comparison_is_an_error(
    operator: Operator,
    left: StatementView,
    right: StatementView,
    constants: Constants,
)
    requires
        operator == Operator::Equal || operator == Operator::NotEqual,
        spec_evaluate(left, constants) is Ok,
        spec_evaluate(left, constants)->Ok_0 is Some,
        spec_evaluate(left, constants)->Ok_0->Some_0 is Real,
        spec_evaluate(right, constants) is Ok,
        spec_evaluate(right, constants)->Ok_0 is Some,
        spec_evaluate(right, constants)->Ok_0->Some_0 is Real,
    ensures
        spec_evaluate(
            StatementView::BinaryExpression {
                operator,
                left: Box::new(left),
                right: Box::new(right),
            },
            constants,
        ) == Err::<Option<LiteralValueView>, EvaluationError>(EvaluationError::RealComparison),
{
}

/// A constant that is initialized with a comparison for equality of two
/// operands that have real values reaches the caller as a hard error: it is
/// reported as illegal with the error of a real comparison, and it is
/// neither resolved nor listed as unresolvable.
pub proof fn lemma_real_comparison_is_reported(
    index: IndexView,
    resolution: Resolution,
    k: int,
    operator: Operator,
    left: StatementView,
    right: StatementView,
)
    requires
        is_resolution(index, resolution),
        0 <= k < index.variables.len(),
        index.variables[k].constant,
        index.variables[k].initial_value == Some(
            StatementView::BinaryExpression {
                operator,
                left: Box::new(left),
                right: Box::new(right),
            },
        ),
        operator == Operator::Equal || operator == Operator::NotEqual,
        spec_evaluate(left, resolution.constants) is Ok,
        spec_evaluate(left, resolution.constants)->Ok_0 is Some,
        spec_evaluate(left, resolution.constants)->Ok_0->Some_0 is Real,
        spec_evaluate(right, resolution.constants) is Ok,
        spec_evaluate(right, resolution.constants)->Ok_0 is Some,
        spec_evaluate(right, resolution.constants)->Ok_0->Some_0 is Real,
    ensures
        resolution.illegal.contains(
            IllegalConstantView {
                name: index.variables[k].name,
                error: EvaluationError::RealComparison,
            },
        ),
        !resolution.unresolvable.contains(index.variables[k].name),
        !resolution.constants.contains_key(index.variables[k].name),
{
    let constants = resolution.constants;
    let order = resolution.order;
    let entry = index.variables[k];
    lemma_real_comparison_is_an_error(operator, left, right, constants);
    lemma_error_is_reported(index, resolution, k);
    let names = illegal_names(resolution.illegal);
    let j = choose|j: int| 0 <= j < names.len() && names[j] == entry.name;
    assert(resolution.illegal[j].name == index.variables[k].name);
    let error = resolution.illegal[j].error;
    assert(reported_with(index.variables[k], constants, order, error));
    let n = choose|n: int| #[trigger] in_error_at(entry, constants, order, n, error);
    let before = resolved_before(constants, order, n);
    lemma_resolved_before_is_part(constants, order, n);
    lemma_evaluate_monotonic(left, before, constants);
    lemma_evaluate_monotonic(right, before, constants);
    assert(error == EvaluationError::RealComparison);
    assert(resolution.illegal[j] == (IllegalConstantView {
        name: entry.name,
        error: EvaluationError::RealComparison,
    }));
}

/// The integer that is stored for a constant of an unsigned integer type of
/// less than 128 bits is none below zero and none above the mask of the type.
pub proof fn lemma_truncated_value_is_in_range(v: i128, size: u32)
    requires
        size < 128,
    ensures
        0 <= truncation_mask(size),
        0 <= (v & truncation_mask(size)) <= truncation_mask(size),
{
    let mask = truncation_mask(size);
    vstd::arithmetic::power2::lemma_pow2_pos(size as nat);
    vstd::arithmetic::power2::lemma2_to64();
    vstd::arithmetic::power2::lemma2_to64_rest();
    vstd::arithmetic::power2::lemma_pow2_adds(64, 63);
    if size < 127 {
        vstd::arithmetic::power2::lemma_pow2_strictly_increases(size as nat, 127);
    }
    assert(pow2(127) == 0x8000_0000_0000_0000_0000_0000_0000_0000);
    assert(0 <= mask);
    assert(0 <= (v & mask) <= mask) by (bit_vector)
        requires
            0 <= mask,
    ;
}

} // verus!
