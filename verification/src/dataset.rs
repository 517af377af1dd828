//! Data sets with splits that are shuffled by a seed.

use crate::aggregation::text_map;
use crate::example::{example_list, lemma_example_list, Example, ExampleSpec};
use crate::strmap::StrMap;
use crate::text::texts;
use crate::value::{Value, ValueSpec};
use vstd::prelude::*;

verus! {

// ---------------------------------------------------------------------------
// Shuffling
// ---------------------------------------------------------------------------

/// The smallest power of two from `unit` on that leaves fewer than 54 binary digits.
pub open spec fn unit_from(x: nat, unit: nat) -> nat
    decreases x / unit,
    when unit > 0 via unit_from_decreases
{
    if x / unit < 0x20_0000_0000_0000 {
        unit
    } else {
        unit_from(x, unit * 2)
    }
}

#[via_fn]
proof fn unit_from_decreases(x: nat, unit: nat) {
    if x / unit >= 0x20_0000_0000_0000 {
        lemma_halved(x, unit);
    }
}

proof fn lemma_halved(x: nat, unit: nat)
    requires
        unit > 0,
        x / unit > 0,
    ensures
        x / (unit * 2) < x / unit,
        x / (unit * 2) == (x / unit) / 2,
{
    vstd::arithmetic::div_mod::lemma_div_denominator(x as int, unit as int, 2);
}

/// A natural number rounded to 53 binary digits, halves to the even neighbour.
pub open spec fn round53(x: nat) -> nat {
    let unit = unit_from(x, 1);
    let q = x / unit;
    let rem = x % unit;
    if 2 * rem > unit || (2 * rem == unit && q % 2 == 1) {
        (q + 1) * unit
    } else {
        q * unit
    }
}

/// The state of the generator after `state`.
pub open spec fn next_state(state: nat) -> nat {
    (state * 1664525 + 1013904223) % 0x1_0000_0000
}

/// The position below `n` that a state of the generator picks: the product of `n`
/// and the state as a fraction, as floating-point numbers with 53 binary digits.
pub open spec fn pick(state: nat, n: nat) -> nat {
    round53(state * round53(n)) / 0x1_0000_0000
}

/// A list with two items exchanged.
pub open spec fn exchanged<T>(s: Seq<T>, i: int, j: int) -> Seq<T> {
    s.update(i, s[j]).update(j, s[i])
}

/// A list shuffled from position `i` down.
pub open spec fn shuffled_from<T>(s: Seq<T>, i: nat, state: nat) -> Seq<T>
    decreases i,
{
    if i == 0 {
        s
    } else {
        let st = next_state(state);
        shuffled_from(
            exchanged(s, i as int, pick(st, i + 1) as int),
            (i - 1) as nat,
            st,
        )
    }
}

/// The positions below `n` in order.
pub open spec fn identity(n: nat) -> Seq<int> {
    Seq::new(n, |i: int| i)
}

/// The order of `n` items that are shuffled by a seed.
pub open spec fn shuffled_order(n: nat, seed: nat) -> Seq<int> {
    if n == 0 {
        Seq::empty()
    } else {
        shuffled_from(identity(n), (n - 1) as nat, seed)
    }
}

proof fn lemma_unit(x: nat, unit: nat)
    requires
        unit > 0,
        unit == 1 || x / unit >= 0x10_0000_0000_0000,
    ensures
        unit_from(x, unit) > 0,
        unit_from(x, unit) == 1 || x / unit_from(x, unit) >= 0x10_0000_0000_0000,
        x / unit_from(x, unit) < 0x20_0000_0000_0000,
    decreases x / unit,
{
    if x / unit >= 0x20_0000_0000_0000 {
        lemma_halved(x, unit);
        lemma_unit(x, unit * 2);
    }
}

/// Rounding adds no more than one part in two to the 53.
proof fn lemma_round53(x: nat)
    ensures
        round53(x) * 0x20_0000_0000_0000 <= x * 0x20_0000_0000_0001,
{
    let unit = unit_from(x, 1);
    lemma_unit(x, 1);
    let q = x / unit;
    let rem = x % unit;
    vstd::arithmetic::div_mod::lemma_fundamental_div_mod(x as int, unit as int);
    assert(x == unit * q + rem);
    assert(unit * q == q * unit) by (nonlinear_arith);
    if unit == 1 {
        assert(rem == 0);
        assert(q * 1 == x) by (nonlinear_arith)
            requires
                x == 1 * q + 0,
        ;
        assert(round53(x) == x);
    } else if 2 * rem > unit || (2 * rem == unit && q % 2 == 1) {
        assert((q + 1) * unit == q * unit + unit) by (nonlinear_arith);
        assert(((q + 1) * unit) * 2 <= x * 2 + unit);
        assert(unit * 0x10_0000_0000_0000 <= x) by (nonlinear_arith)
            requires
                q >= 0x10_0000_0000_0000,
                x == unit * q + rem,
        ;
    } else {
        assert(q * unit <= x);
        assert((q * unit) * 0x20_0000_0000_0000 <= x * 0x20_0000_0000_0001) by (nonlinear_arith)
            requires
                q * unit <= x,
        ;
    }
}

/// A position that is picked below `n` is below `n`.
pub proof fn lemma_pick(state: nat, n: nat)
    requires
        state < 0x1_0000_0000,
        n > 0,
    ensures
        pick(state, n) < n,
{
    let b = round53(n);
    let p = state * b;
    let r = round53(p);
    lemma_round53(n);
    lemma_round53(p);
    assert(state * (b * 0x20_0000_0000_0000) <= 0xffff_ffff * (n * 0x20_0000_0000_0001))
        by (nonlinear_arith)
        requires
            state <= 0xffff_ffff,
            b * 0x20_0000_0000_0000 <= n * 0x20_0000_0000_0001,
    ;
    assert(p * 0x20_0000_0000_0000 == state * (b * 0x20_0000_0000_0000)) by (nonlinear_arith)
        requires
            p == state * b,
    ;
    assert(p * 0x20_0000_0000_0000 <= n * (0xffff_ffff * 0x20_0000_0000_0001)) by (nonlinear_arith)
        requires
            p * 0x20_0000_0000_0000 <= 0xffff_ffff * (n * 0x20_0000_0000_0001),
    ;
    assert((r * 0x20_0000_0000_0000) * 0x20_0000_0000_0000 <= (p * 0x20_0000_0000_0001)
        * 0x20_0000_0000_0000) by (nonlinear_arith)
        requires
            r * 0x20_0000_0000_0000 <= p * 0x20_0000_0000_0001,
    ;
    assert((p * 0x20_0000_0000_0001) * 0x20_0000_0000_0000 == (p * 0x20_0000_0000_0000)
        * 0x20_0000_0000_0001) by (nonlinear_arith);
    assert((p * 0x20_0000_0000_0000) * 0x20_0000_0000_0001 <= (n * (0xffff_ffff
        * 0x20_0000_0000_0001)) * 0x20_0000_0000_0001) by (nonlinear_arith)
        requires
            p * 0x20_0000_0000_0000 <= n * (0xffff_ffff * 0x20_0000_0000_0001),
    ;
    assert((n * (0xffff_ffff * 0x20_0000_0000_0001)) * 0x20_0000_0000_0001 < ((n
        * 0x1_0000_0000) * 0x20_0000_0000_0000) * 0x20_0000_0000_0000) by (nonlinear_arith)
        requires
            n > 0,
    ;
    assert(r < n * 0x1_0000_0000) by (nonlinear_arith)
        requires
            (r * 0x20_0000_0000_0000) * 0x20_0000_0000_0000 < ((n * 0x1_0000_0000)
                * 0x20_0000_0000_0000) * 0x20_0000_0000_0000,
    ;
    assert(r / 0x1_0000_0000 < n) by (nonlinear_arith)
        requires
            r < n * 0x1_0000_0000,
    ;
}

fn rounded(x: u128) -> (r: u128)
    requires
        x <= 0x10_0000_0000_0000_0000_0000_0000,
    ensures
        r == round53(x as nat),
        r <= 0x20_0000_0000_0000_0000_0000_0000,
{
    let mut unit: u128 = 1;
    while x / unit >= 0x20_0000_0000_0000
        invariant
            x <= 0x10_0000_0000_0000_0000_0000_0000,
            0 < unit <= x || unit == 1,
            unit_from(x as nat, 1) == unit_from(x as nat, unit as nat),
            unit == 1 || x as nat / unit as nat >= 0x10_0000_0000_0000,
        decreases x as nat / unit as nat,
    {
        proof {
            lemma_halved(x as nat, unit as nat);
            assert(unit * 2 <= x) by (nonlinear_arith)
                requires
                    x as nat / unit as nat >= 0x20_0000_0000_0000,
                    unit > 0,
            ;
        }
        unit = unit * 2;
    }
    let q: u128 = x / unit;
    let rem: u128 = x % unit;
    proof {
        lemma_round53(x as nat);
        lemma_unit(x as nat, 1);
        vstd::arithmetic::div_mod::lemma_fundamental_div_mod(x as int, unit as int);
        assert(unit * q == q * unit) by (nonlinear_arith);
        assert((q + 1) * unit == q * unit + unit) by (nonlinear_arith);
        assert(round53(x as nat) <= 0x20_0000_0000_0000_0000_0000_0000);
        assert(unit <= 0x10_0000_0000_0000_0000_0000_0000);
        assert(q * unit <= x);
    }
    if 2 * rem > unit || (2 * rem == unit && q % 2 == 1) {
        (q + 1) * unit
    } else {
        q * unit
    }
}

fn advance(state: u64) -> (r: u64)
    requires
        state < 0x1_0000_0000_0000_0000,
    ensures
        r == next_state(state as nat),
        r < 0x1_0000_0000,
{
    let x: u128 = (state as u128 * 1664525 + 1013904223) % 0x1_0000_0000;
    x as u64
}

fn pick_below(state: u64, n: usize) -> (r: usize)
    requires
        state < 0x1_0000_0000,
        n > 0,
    ensures
        r == pick(state as nat, n as nat),
        r < n,
{
    let b: u128 = rounded(n as u128);
    proof {
        lemma_round53(n as nat);
        lemma_pick(state as nat, n as nat);
        assert(b <= 0x2_0000_0000_0000_0000);
        assert(state * b <= 0xffff_ffff * 0x2_0000_0000_0000_0000) by (nonlinear_arith)
            requires
                state <= 0xffff_ffff,
                b <= 0x2_0000_0000_0000_0000,
        ;
    }
    let p: u128 = rounded(state as u128 * b);
    let j: u128 = p / 0x1_0000_0000;
    j as usize
}

/// The order of `n` items that are shuffled by a seed.
pub fn seeded_order(n: usize, seed: u64) -> (r: Vec<usize>)
    ensures
        r@.map_values(|i: usize| i as int) == shuffled_order(n as nat, seed as nat),
        r@.len() == n,
        forall|k: int| 0 <= k < n ==> (#[trigger] r@[k]) < n,
{
    let mut order: Vec<usize> = Vec::new();
    let mut i: usize = 0;
    while i < n
        invariant
            i <= n,
            order@.len() == i,
            forall|k: int| 0 <= k < i ==> (#[trigger] order@[k]) == k,
        decreases n - i,
    {
        order.push(i);
        i = i + 1;
    }
    proof {
        assert(order@.map_values(|i: usize| i as int) =~= identity(n as nat));
    }
    if n == 0 {
        proof {
            assert(order@.map_values(|i: usize| i as int) =~= Seq::<int>::empty());
        }
        return order;
    }
    let mut state: u64 = seed;
    let mut at: usize = n - 1;
    while at > 0
        invariant
            at < n,
            order@.len() == n,
            forall|k: int| 0 <= k < n ==> (#[trigger] order@[k]) < n,
            shuffled_order(n as nat, seed as nat) == shuffled_from(
                order@.map_values(|i: usize| i as int),
                at as nat,
                state as nat,
            ),
        decreases at,
    {
        let ghost before = order@;
        state = advance(state);
        let j: usize = pick_below(state, at + 1);
        let x: usize = order[at];
        let y: usize = order[j];
        order.set(at, y);
        order.set(j, x);
        proof {
            assert(order@.map_values(|i: usize| i as int) =~= exchanged(
                before.map_values(|i: usize| i as int),
                at as int,
                j as int,
            ));
            assert forall|k: int| 0 <= k < n implies (#[trigger] order@[k]) < n by {
                assert(order@[k] == before[k] || order@[k] == x || order@[k] == y);
            }
        }
        at = at - 1;
    }
    order
}

proof fn lemma_exchanged<T>(s: Seq<T>, i: int, j: int)
    requires
        0 <= i < s.len(),
        0 <= j < s.len(),
    ensures
        exchanged(s, i, j).len() == s.len(),
        exchanged(s, i, j).to_multiset() == s.to_multiset(),
{
    broadcast use vstd::seq_lib::group_to_multiset_ensures;

    let a = s.update(i, s[j]);
    vstd::seq_lib::to_multiset_update(s, i, s[j]);
    vstd::seq_lib::to_multiset_update(a, j, s[i]);
    assert(exchanged(s, i, j).to_multiset() =~= s.to_multiset());
}

proof fn lemma_shuffled_from<T>(s: Seq<T>, i: nat, state: nat)
    requires
        i < s.len(),
    ensures
        shuffled_from(s, i, state).len() == s.len(),
        shuffled_from(s, i, state).to_multiset() == s.to_multiset(),
    decreases i,
{
    if i > 0 {
        let st = next_state(state);
        lemma_pick(st, i + 1);
        let j = pick(st, i + 1) as int;
        lemma_exchanged(s, i as int, j);
        lemma_shuffled_from(exchanged(s, i as int, j), (i - 1) as nat, st);
    }
}

/// Shuffling keeps every item, each once. The order depends on the number of items
/// and the seed alone.
pub proof fn law_shuffling_is_a_permutation(n: nat, seed: nat)
    ensures
        shuffled_order(n, seed).len() == n,
        shuffled_order(n, seed).to_multiset() == identity(n).to_multiset(),
{
    if n > 0 {
        lemma_shuffled_from(identity(n), (n - 1) as nat, seed);
    } else {
        assert(identity(n) =~= Seq::<int>::empty());
    }
}

// ---------------------------------------------------------------------------
// Data sets
// ---------------------------------------------------------------------------

/// How a data set is split.
#[derive(Debug)]
pub struct DatasetConfig {
    pub train_seed: u64,
    pub train_size: Option<usize>,
    pub eval_seed: u64,
    pub dev_size: Option<usize>,
    pub test_size: Option<usize>,
    pub input_keys: Vec<String>,
}

impl Default for DatasetConfig {
    /// All items of each split, and no input fields.
    fn default() -> (r: Self)
        ensures
            r.train_seed == 0,
            r.train_size is None,
            r.eval_seed == 0,
            r.dev_size is None,
            r.test_size is None,
            r.input_keys@.len() == 0,
    {
        DatasetConfig {
            train_seed: 0,
            train_size: None,
            eval_seed: 0,
            dev_size: None,
            test_size: None,
            input_keys: Vec::new(),
        }
    }
}

/// A data set with its splits.
#[derive(Debug)]
pub struct Dataset {
    pub name: String,
    pub config: DatasetConfig,
    pub do_shuffle: bool,
    pub train_data: Vec<StrMap<String>>,
    pub dev_data: Vec<StrMap<String>>,
    pub test_data: Vec<StrMap<String>>,
}

/// The order in which the items of a split come.
pub open spec fn item_order(n: nat, shuffle: bool, seed: nat) -> Seq<int> {
    if shuffle {
        shuffled_order(n, seed)
    } else {
        identity(n)
    }
}

/// How many items of a split are taken.
pub open spec fn taken(n: nat, size: Option<usize>) -> nat {
    match size {
        Some(k) => if (k as nat) < n {
            k as nat
        } else {
            n
        },
        None => n,
    }
}

/// The example of an item: its texts, the name of the split, and the input fields.
pub open spec fn item_example(
    item: StrMap<String>,
    split: Seq<char>,
    input_keys: Seq<Seq<char>>,
) -> ExampleSpec {
    ExampleSpec {
        store: text_map(item).insert("dspy_split"@, split).map_values(
            |t: Seq<char>| ValueSpec::Text(t),
        ),
        keys: if item@.contains_key("dspy_split"@) {
            item.keys()
        } else {
            item.keys().push("dspy_split"@)
        },
        input_keys: if input_keys.len() > 0 {
            Some(input_keys.to_set())
        } else {
            None
        },
        demos: Seq::empty(),
    }
}

/// The examples of a split.
pub open spec fn split_examples(
    data: Seq<StrMap<String>>,
    split: Seq<char>,
    size: Option<usize>,
    shuffle: bool,
    seed: nat,
    input_keys: Seq<Seq<char>>,
) -> Seq<ExampleSpec> {
    item_order(data.len(), shuffle, seed).take(taken(data.len(), size) as int).map_values(
        |i: int| item_example(data[i], split, input_keys),
    )
}

fn example_of_item(item: &StrMap<String>, split: &str, input_keys: &Vec<String>) -> (r: Example)
    ensures
        r@ == item_example(*item, split@, texts(input_keys@)),
{
    let ghost keys = item.keys();
    let n: usize = item.len();
    let mut values: StrMap<Value> = StrMap::new();
    let mut i: usize = 0;
    proof {
        use_type_invariant(item);
        item.lemma_shape();
        assert(keys.take(0) =~= Seq::<Seq<char>>::empty());
    }
    while i < n
        invariant
            n == keys.len(),
            i <= n,
            keys == item.keys(),
            keys.no_duplicates(),
            forall|k: int| 0 <= k < n ==> item@.contains_key(#[trigger] keys[k]),
            values.keys() == keys.take(i as int),
            forall|k: Seq<char>| #[trigger]
                values@.contains_key(k) <==> keys.take(i as int).contains(k),
            forall|k: Seq<char>| #[trigger]
                values@.contains_key(k) ==> values@[k]@ == ValueSpec::Text(item@[k]@),
        decreases n - i,
    {
        let k = item.key_at(i);
        let v = Value::String(item.value_at(i).clone());
        proof {
            assert(item@.contains_key(keys[i as int]));
            if values@.contains_key(k@) {
                let j = choose|j: int| 0 <= j < i && keys.take(i as int)[j] == k@;
                assert(keys[j] == keys[i as int]);
            }
        }
        values.insert(k.clone(), v);
        proof {
            let a1 = keys.take(i as int);
            let a2 = keys.take(i + 1);
            assert(a2 =~= a1.push(keys[i as int]));
            assert forall|y: Seq<char>| a2.contains(y) <==> (a1.contains(y) || y
                == keys[i as int]) by {
                if a1.contains(y) {
                    let j = choose|j: int| 0 <= j < a1.len() && a1[j] == y;
                    assert(a2[j] == y);
                }
                assert(a2[i as int] == keys[i as int]);
            }
        }
        i = i + 1;
    }
    proof {
        assert(keys.take(i as int) =~= keys);
        use_type_invariant(item);
        item.lemma_shape();
    }
    values.insert("dspy_split".to_string(), Value::String(split.to_owned()));
    proof {
        let want = item_example(*item, split@, texts(input_keys@));
        assert(crate::example::value_map(values) =~= want.store);
    }
    let example = Example::from_map(values);
    if input_keys.len() > 0 {
        example.with_input_keys(input_keys)
    } else {
        example
    }
}

impl Dataset {
    /// A data set with the items of each split.
    pub fn new(
        name: &str,
        config: DatasetConfig,
        train_data: Vec<StrMap<String>>,
        dev_data: Vec<StrMap<String>>,
        test_data: Vec<StrMap<String>>,
    ) -> (r: Self)
        ensures
            r.name@ == name@,
            r.config == config,
            r.do_shuffle,
            r.train_data == train_data,
            r.dev_data == dev_data,
            r.test_data == test_data,
    {
        Dataset {
            name: name.to_owned(),
            config,
            do_shuffle: true,
            train_data,
            dev_data,
            test_data,
        }
    }

    /// The training split.
    pub open spec fn train_split(self) -> Seq<ExampleSpec> {
        split_examples(
            self.train_data@,
            "train"@,
            self.config.train_size,
            self.do_shuffle,
            self.config.train_seed as nat,
            texts(self.config.input_keys@),
        )
    }

    /// The split for development.
    pub open spec fn dev_split(self) -> Seq<ExampleSpec> {
        split_examples(
            self.dev_data@,
            "dev"@,
            self.config.dev_size,
            self.do_shuffle,
            self.config.eval_seed as nat,
            texts(self.config.input_keys@),
        )
    }

    /// The test split.
    pub open spec fn test_split(self) -> Seq<ExampleSpec> {
        split_examples(
            self.test_data@,
            "test"@,
            self.config.test_size,
            self.do_shuffle,
            self.config.eval_seed as nat,
            texts(self.config.input_keys@),
        )
    }

    fn shuffle_and_sample(
        &self,
        split: &str,
        data: &Vec<StrMap<String>>,
        size: Option<usize>,
        seed: u64,
    ) -> (r: Vec<Example>)
        ensures
            example_list(r@) == split_examples(
                data@,
                split@,
                size,
                self.do_shuffle,
                seed as nat,
                texts(self.config.input_keys@),
            ),
    {
        let n: usize = data.len();
        let count: usize = match size {
            Some(k) => if k < n {
                k
            } else {
                n
            },
            None => n,
        };
        let ghost order_spec = item_order(n as nat, self.do_shuffle, seed as nat);
        let order = if self.do_shuffle {
            seeded_order(n, seed)
        } else {
            in_place(n)
        };
        let ghost want = split_examples(
            data@,
            split@,
            size,
            self.do_shuffle,
            seed as nat,
            texts(self.config.input_keys@),
        );
        let mut r: Vec<Example> = Vec::new();
        let mut i: usize = 0;
        proof {
            lemma_example_list(r@);
            assert(example_list(r@) =~= want.take(0));
            assert(order@.map_values(|i: usize| i as int).len() == n);
            assert(want.len() == count);
        }
        while i < count
            invariant
                i <= count <= n,
                n == data@.len(),
                order@.len() == n,
                order@.map_values(|i: usize| i as int) == order_spec,
                forall|k: int| 0 <= k < n ==> (#[trigger] order@[k]) < n,
                want.len() == count,
                want == order_spec.take(count as int).map_values(
                    |i: int| item_example(data@[i], split@, texts(self.config.input_keys@)),
                ),
                example_list(r@) == want.take(i as int),
            decreases count - i,
        {
            let ghost before = r@;
            let at: usize = order[i];
            let e = example_of_item(&data[at], split, &self.config.input_keys);
            r.push(e);
            proof {
                lemma_example_list(before);
                lemma_example_list(r@);
                assert(order_spec[i as int] == at);
                assert(want[i as int] == e@);
                assert(want.take(i + 1) =~= want.take(i as int).push(want[i as int]));
                assert(example_list(r@) =~= example_list(before).push(e@));
            }
            i = i + 1;
        }
        proof {
            assert(want.take(i as int) =~= want);
        }
        r
    }

    /// The examples of the training split.
    pub fn train(&self) -> (r: Vec<Example>)
        ensures
            example_list(r@) == self.train_split(),
    {
        self.shuffle_and_sample(
            "train",
            &self.train_data,
            self.config.train_size,
            self.config.train_seed,
        )
    }

    /// The examples of the split for development.
    pub fn dev(&self) -> (r: Vec<Example>)
        ensures
            example_list(r@) == self.dev_split(),
    {
        self.shuffle_and_sample(
            "dev",
            &self.dev_data,
            self.config.dev_size,
            self.config.eval_seed,
        )
    }

    /// The examples of the test split.
    pub fn test(&self) -> (r: Vec<Example>)
        ensures
            example_list(r@) == self.test_split(),
    {
        self.shuffle_and_sample(
            "test",
            &self.test_data,
            self.config.test_size,
            self.config.eval_seed,
        )
    }
}

fn in_place(n: usize) -> (r: Vec<usize>)
    ensures
        r@.map_values(|i: usize| i as int) == identity(n as nat),
        r@.len() == n,
        forall|k: int| 0 <= k < n ==> (#[trigger] r@[k]) < n,
{
    let mut r: Vec<usize> = Vec::new();
    let mut i: usize = 0;
    while i < n
        invariant
            i <= n,
            r@.len() == i,
            forall|k: int| 0 <= k < i ==> (#[trigger] r@[k]) == k,
        decreases n - i,
    {
        r.push(i);
        i = i + 1;
    }
    proof {
        assert(r@.map_values(|i: usize| i as int) =~= identity(n as nat));
    }
    r
}

// ---------------------------------------------------------------------------
// Splits by seed
// ---------------------------------------------------------------------------

/// The seeds where none are given.
pub open spec fn seeds_of(train_seeds: Option<&[u64]>) -> Seq<u64> {
    match train_seeds {
        Some(s) => s@,
        None => seq![1u64, 2, 3, 4, 5],
    }
}

/// How many examples each seed has to be evaluated on.
pub open spec fn per_seed(dev_size: nat, seeds: nat, divide: bool) -> nat {
    if divide {
        dev_size / seeds
    } else {
        dev_size
    }
}

/// Where the examples begin that a seed is evaluated on.
pub open spec fn eval_start(i: nat, per: nat, divide: bool) -> nat {
    if divide {
        i * per
    } else {
        0
    }
}

/// Where the examples end that a seed is evaluated on.
pub open spec fn eval_end(i: nat, per: nat, divide: bool, total: nat) -> nat {
    if eval_start(i, per, divide) + per < total {
        eval_start(i, per, divide) + per
    } else {
        total
    }
}

/// The data set as it is set up for a seed.
pub open spec fn for_seed(
    d: Dataset,
    train_seed: u64,
    train_size: usize,
    dev_size: usize,
    eval_seed: u64,
) -> Dataset {
    Dataset {
        config: DatasetConfig {
            train_seed,
            train_size: Some(train_size),
            eval_seed,
            dev_size: Some(dev_size),
            test_size: Some(0),
            ..d.config
        },
        ..d
    }
}

/// The examples at some positions of a list.
fn slice_examples(v: &Vec<Example>, from: usize, to: usize) -> (r: Vec<Example>)
    requires
        from <= to <= v@.len(),
    ensures
        example_list(r@) == example_list(v@).subrange(from as int, to as int),
{
    let ghost want = example_list(v@).subrange(from as int, to as int);
    let mut r: Vec<Example> = Vec::new();
    let mut i: usize = from;
    proof {
        lemma_example_list(v@);
        lemma_example_list(r@);
        assert(example_list(r@) =~= want.take(0));
    }
    while i < to
        invariant
            from <= i <= to <= v@.len(),
            example_list(v@).len() == v@.len(),
            forall|k: int| 0 <= k < v@.len() ==> #[trigger] example_list(v@)[k] == v@[k]@,
            want == example_list(v@).subrange(from as int, to as int),
            example_list(r@) == want.take(i - from),
        decreases to - i,
    {
        let ghost before = r@;
        r.push(v[i].clone());
        proof {
            lemma_example_list(before);
            lemma_example_list(r@);
            assert(example_list(v@)[i as int] == v@[i as int]@);
            assert(want.take(i - from + 1) =~= want.take(i - from).push(want[i - from]));
            assert(example_list(r@) =~= example_list(before).push(want[i - from]));
        }
        i = i + 1;
    }
    proof {
        assert(want.take(i - from) =~= want);
    }
    r
}

/// What the lists of examples say.
pub open spec fn example_lists(v: Seq<Vec<Example>>) -> Seq<Seq<ExampleSpec>> {
    v.map_values(|x: Vec<Example>| example_list(x@))
}

impl Dataset {
    /// A training set and a set for evaluation for each seed. Where the sets for
    /// evaluation are to be parts of one, there must be a seed, and the split must be
    /// long enough for every part to begin within it.
    pub fn prepare_by_seed(
        &mut self,
        train_seeds: Option<&[u64]>,
        train_size: usize,
        dev_size: usize,
        divide_eval_per_seed: bool,
        eval_seed: u64,
    ) -> (r: (Vec<Vec<Example>>, Vec<Vec<Example>>))
        requires
            divide_eval_per_seed ==> seeds_of(train_seeds).len() > 0 && (seeds_of(
                train_seeds,
            ).len() - 1) * (dev_size as nat / seeds_of(train_seeds).len()) <= old(
                self,
            ).dev_data@.len(),
        ensures
            ({
                let seeds = seeds_of(train_seeds);
                let n = seeds.len();
                let d = for_seed(
                    *old(self),
                    old(self).config.train_seed,
                    train_size,
                    dev_size,
                    eval_seed,
                );
                let eval = d.dev_split();
                let per = per_seed(dev_size as nat, n, divide_eval_per_seed);
                &&& r.0@.len() == n
                &&& r.1@.len() == n
                &&& forall|i: int|
                    0 <= i < n ==> (#[trigger] example_lists(r.0@)[i]) == for_seed(
                        *old(self),
                        seeds[i],
                        train_size,
                        dev_size,
                        eval_seed,
                    ).train_split()
                &&& forall|i: int|
                    0 <= i < n ==> (#[trigger] example_lists(r.1@)[i]) == eval.subrange(
                        eval_start(i as nat, per, divide_eval_per_seed) as int,
                        eval_end(i as nat, per, divide_eval_per_seed, eval.len()) as int,
                    )
                &&& *final(self) == for_seed(
                    *old(self),
                    if n > 0 {
                        seeds.last()
                    } else {
                        old(self).config.train_seed
                    },
                    train_size,
                    dev_size,
                    eval_seed,
                )
            }),
    {
        let given: [u64; 5] = [1, 2, 3, 4, 5];
        let seeds: &[u64] = match train_seeds {
            Some(s) => s,
            None => &given,
        };
        let ghost all = seeds_of(train_seeds);
        proof {
            assert(seeds@ =~= all);
        }
        let ghost start = *self;
        self.config.train_size = Some(train_size);
        self.config.eval_seed = eval_seed;
        self.config.dev_size = Some(dev_size);
        self.config.test_size = Some(0);
        let ghost ready = *self;
        proof {
            assert(ready == for_seed(
                start,
                start.config.train_seed,
                train_size,
                dev_size,
                eval_seed,
            ));
        }
        let eval_set = self.dev();
        let n: usize = seeds.len();
        let total: usize = eval_set.len();
        let per: usize = if divide_eval_per_seed {
            dev_size / n
        } else {
            dev_size
        };
        let ghost eval = example_list(eval_set@);
        let mut train_sets: Vec<Vec<Example>> = Vec::new();
        let mut eval_sets: Vec<Vec<Example>> = Vec::new();
        let mut offset: usize = 0;
        let mut i: usize = 0;
        proof {
            lemma_example_list(eval_set@);
            assert(0 * per == 0) by (nonlinear_arith);
            law_shuffling_is_a_permutation(start.dev_data@.len(), eval_seed as nat);
            assert(eval.len() == taken(start.dev_data@.len(), Some(dev_size)));
        }
        while i < n
            invariant
                i <= n,
                n == all.len(),
                seeds@ == all,
                total == eval.len(),
                eval == example_list(eval_set@),
                total == eval_set@.len(),
                total == taken(start.dev_data@.len(), Some(dev_size)),
                per == per_seed(dev_size as nat, n as nat, divide_eval_per_seed),
                divide_eval_per_seed ==> (n - 1) * per <= start.dev_data@.len(),
                divide_eval_per_seed ==> n > 0,
                offset == eval_start(i as nat, per as nat, divide_eval_per_seed),
                *self == for_seed(
                    start,
                    if i > 0 {
                        all[i - 1]
                    } else {
                        start.config.train_seed
                    },
                    train_size,
                    dev_size,
                    eval_seed,
                ),
                train_sets@.len() == i,
                eval_sets@.len() == i,
                forall|k: int|
                    0 <= k < i ==> (#[trigger] example_lists(train_sets@)[k]) == for_seed(
                        start,
                        all[k],
                        train_size,
                        dev_size,
                        eval_seed,
                    ).train_split(),
                forall|k: int|
                    0 <= k < i ==> (#[trigger] example_lists(eval_sets@)[k]) == eval.subrange(
                        eval_start(k as nat, per as nat, divide_eval_per_seed) as int,
                        eval_end(k as nat, per as nat, divide_eval_per_seed, eval.len()) as int,
                    ),
            decreases n - i,
        {
            self.config.train_seed = seeds[i];
            self.config.train_size = Some(train_size);
            self.config.eval_seed = eval_seed;
            self.config.dev_size = Some(dev_size);
            self.config.test_size = Some(0);
            proof {
                if divide_eval_per_seed {
                    lemma_offsets(i as nat, n as nat, dev_size as nat);
                    assert(offset <= (n - 1) * per) by (nonlinear_arith)
                        requires
                            offset == i * per,
                            i <= n - 1,
                            per >= 0,
                    ;
                }
                assert((i + 1) * per == i * per + per) by (nonlinear_arith);
                assert(offset <= total);
                assert(offset + per <= dev_size);
            }
            let end: usize = if offset + per < total {
                offset + per
            } else {
                total
            };
            let ghost was_eval = eval_sets@;
            let ghost was_train = train_sets@;
            eval_sets.push(slice_examples(&eval_set, offset, end));
            train_sets.push(self.train());
            proof {
                assert forall|k: int| 0 <= k < i + 1 implies (#[trigger] example_lists(
                    train_sets@,
                )[k]) == for_seed(
                    start,
                    all[k],
                    train_size,
                    dev_size,
                    eval_seed,
                ).train_split() by {
                    if k < i {
                        assert(example_lists(was_train)[k] == example_list(train_sets@[k]@));
                    }
                }
                assert forall|k: int| 0 <= k < i + 1 implies (#[trigger] example_lists(
                    eval_sets@,
                )[k]) == eval.subrange(
                    eval_start(k as nat, per as nat, divide_eval_per_seed) as int,
                    eval_end(k as nat, per as nat, divide_eval_per_seed, eval.len()) as int,
                ) by {
                    if k < i {
                        assert(example_lists(was_eval)[k] == example_list(eval_sets@[k]@));
                    }
                }
            }
            if divide_eval_per_seed {
                offset = offset + per;
            }
            i = i + 1;
        }
        (train_sets, eval_sets)
    }
}

proof fn lemma_offsets(i: nat, n: nat, size: nat)
    requires
        i < n,
    ensures
        i * (size / n) + size / n <= size,
{
    let per = size / n;
    assert((i + 1) * per <= n * per) by (nonlinear_arith)
        requires
            i + 1 <= n,
            per >= 0,
    ;
    assert((i + 1) * per == i * per + per) by (nonlinear_arith);
    assert(n * per <= size) by {
        vstd::arithmetic::div_mod::lemma_fundamental_div_mod(size as int, n as int);
    }
}

/// Of not too many positions a state of the generator picks the one that stands as far
/// along as the state does among all states.
pub proof fn law_states_pick_in_proportion(state: nat, n: nat)
    requires
        state < 0x1_0000_0000,
        0 < n < 0x20_0000,
    ensures
        pick(state, n) < n,
        pick(state, n) * 0x1_0000_0000 <= state * n < (pick(state, n) + 1) * 0x1_0000_0000,
{
    let x = state * n;
    assert(x < 0x20_0000_0000_0000) by (nonlinear_arith)
        requires
            x == state * n,
            state < 0x1_0000_0000,
            n < 0x20_0000,
    ;
    lemma_round53_small(n);
    lemma_round53_small(x);
    let p = x / 0x1_0000_0000;
    assert(pick(state, n) == p);
    assert(p * 0x1_0000_0000 <= x < (p + 1) * 0x1_0000_0000);
    assert(x < n * 0x1_0000_0000) by (nonlinear_arith)
        requires
            x == state * n,
            state < 0x1_0000_0000,
            0 < n,
    ;
}

proof fn lemma_round53_small(x: nat)
    requires
        x < 0x20_0000_0000_0000,
    ensures
        round53(x) == x,
{
    assert(x / 1 == x && x % 1 == 0);
    assert(unit_from(x, 1) == 1);
    assert(x * 1 == x);
}

/// The generator goes through numbers of 32 bits in a fixed step: the states after two
/// neighbours are one multiplier apart, and the state after zero is the increment.
pub proof fn law_generator_has_a_fixed_step(state: nat)
    ensures
        next_state(state) < 0x1_0000_0000,
        next_state(0) == 1013904223,
        (next_state(state + 1) - next_state(state)) % 0x1_0000_0000 == 1664525,
{
    let a = state * 1664525 + 1013904223;
    let b = (state + 1) * 1664525 + 1013904223;
    assert(b == a + 1664525);
    assert((b % 0x1_0000_0000 - a % 0x1_0000_0000) % 0x1_0000_0000 == 1664525);
}

} // verus!
