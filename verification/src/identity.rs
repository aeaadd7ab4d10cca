//! Plugin identities: a name together with its configuration in canonical
//! order, so that the order in which a caller lists the configuration keys
//! never decides which plugin instance is meant.

use vstd::prelude::*;
use vstd::seq_lib::*;
use crate::text::{
    lemma_text_le_antisymmetric, lemma_text_le_reflexive, lemma_text_le_total,
    lemma_text_le_transitive, precedes_or_equals, text_le, TextPairs,
};

verus! {

/// The mathematical value of an identity: the plugin's name and its
/// configuration pairs in canonical order.
pub struct IdentityView {
    pub name: Seq<char>,
    pub config: TextPairs,
}

/// The keys never decrease along the sequence.
pub open spec fn key_sorted(s: TextPairs) -> bool {
    forall|i: int, j: int| #![trigger s[i], s[j]] 0 <= i < j < s.len() ==> text_le(s[i].0, s[j].0)
}

/// No key occurs at two positions.
pub open spec fn distinct_keys(s: TextPairs) -> bool {
    forall|i: int, j: int| #![trigger s[i], s[j]] 0 <= i < j < s.len() ==> s[i].0 != s[j].0
}

/// The test whether a pair carries `key`.
pub open spec fn has_key(key: Seq<char>) -> spec_fn((Seq<char>, Seq<char>)) -> bool {
    |p: (Seq<char>, Seq<char>)| p.0 == key
}

/// The pairs of `s` that carry `key`, in the order in which `s` lists them.
pub open spec fn with_key(s: TextPairs, key: Seq<char>) -> TextPairs {
    s.filter(has_key(key))
}

/// `out` is the canonical form of `input`: the same pairs, ordered by key,
/// pairs that share a key keeping the order they had in `input`.
pub open spec fn is_canonical_form_of(
    out: TextPairs,
    input: TextPairs,
) -> bool {
    &&& key_sorted(out)
    &&& out.to_multiset() == input.to_multiset()
    &&& forall|key: Seq<char>| #[trigger] with_key(out, key) == with_key(input, key)
}

/// Filtering a sequence none of whose elements passes yields nothing.
proof fn lemma_filter_none<A>(s: Seq<A>, pred: spec_fn(A) -> bool)
    requires
        forall|i: int| 0 <= i < s.len() ==> !pred(#[trigger] s[i]),
    ensures
        s.filter(pred) == Seq::<A>::empty(),
    decreases s.len(),
{
    reveal(Seq::filter);
    if s.len() > 0 {
        lemma_filter_none(s.drop_last(), pred);
    }
}

/// Inserting a pair behind every pair whose key does not exceed its own,
/// and before the first pair whose key does, keeps a canonical form canonical
/// for the input extended by that pair.
proof fn lemma_insert_keeps_canonical(
    out: TextPairs,
    input: TextPairs,
    pos: int,
    e: (Seq<char>, Seq<char>),
)
    requires
        is_canonical_form_of(out, input),
        0 <= pos <= out.len(),
        forall|j: int| 0 <= j < pos ==> text_le(#[trigger] out[j].0, e.0),
        pos < out.len() ==> !text_le(out[pos].0, e.0),
    ensures
        is_canonical_form_of(out.insert(pos, e), input.push(e)),
{
    let grown = out.insert(pos, e);
    let head = out.take(pos);
    let tail = out.skip(pos);
    assert(out =~= head + tail);
    assert(grown =~= head + seq![e] + tail);

    // Every pair from `pos` on has a key strictly behind the new one.
    assert forall|j: int| pos <= j < out.len() implies text_le(e.0, #[trigger] out[j].0)
        && out[j].0 != e.0 by {
        lemma_text_le_reflexive(out[pos].0);
        assert(text_le(out[pos].0, out[j].0));
        lemma_text_le_total(e.0, out[pos].0);
        lemma_text_le_transitive(e.0, out[pos].0, out[j].0);
        if text_le(out[j].0, e.0) {
            lemma_text_le_transitive(out[pos].0, out[j].0, e.0);
        }
        lemma_text_le_reflexive(e.0);
    }

    assert(key_sorted(grown)) by {
        assert forall|i: int, j: int| 0 <= i < j < grown.len() implies text_le(
            grown[i].0,
            grown[j].0,
        ) by {
            if j < pos {
                assert(grown[i] == out[i] && grown[j] == out[j]);
            } else if j == pos {
                assert(grown[i] == out[i]);
            } else if i < pos {
                assert(grown[i] == out[i] && grown[j] == out[j - 1]);
                if i == j - 1 {
                    lemma_text_le_reflexive(out[i].0);
                }
            } else if i == pos {
                assert(grown[j] == out[j - 1]);
            } else {
                assert(grown[i] == out[i - 1] && grown[j] == out[j - 1]);
            }
        }
    }

    assert(grown.to_multiset() == input.push(e).to_multiset()) by {
        to_multiset_insert(out, pos, e);
        to_multiset_build(input, e);
    }

    assert forall|key: Seq<char>| #[trigger]
        with_key(grown, key) == with_key(input.push(e), key) by {
        let pred = has_key(key);
        Seq::filter_distributes_over_add(head, tail, pred);
        Seq::filter_distributes_over_add(head, seq![e], pred);
        Seq::filter_distributes_over_add(head + seq![e], tail, pred);
        input.lemma_filter_push(e, pred);
        TextPairs::empty().lemma_filter_push(e, pred);
        lemma_filter_none(TextPairs::empty(), pred);
        assert(TextPairs::empty().push(e) =~= seq![e]);
        assert(with_key(out, key) == with_key(input, key));
        if e.0 == key {
            assert forall|j: int| 0 <= j < tail.len() implies !pred(#[trigger] tail[j]) by {
                assert(tail[j] == out[pos + j]);
            }
            lemma_filter_none(tail, pred);
            assert(head.filter(pred) + TextPairs::empty() =~= head.filter(
                pred,
            ));
            assert(grown.filter(pred) =~= out.filter(pred).push(e));
        } else {
            assert(grown.filter(pred) =~= out.filter(pred));
        }
    }
}

/// The position behind the leading pairs of `s` whose keys do not exceed `key`.
spec fn insertion_point(s: TextPairs, key: Seq<char>) -> int
    decreases s.len(),
{
    if s.len() > 0 && text_le(s[0].0, key) {
        1 + insertion_point(s.drop_first(), key)
    } else {
        0
    }
}

/// The insertion point lies within the sequence, behind keys that do not
/// exceed `key` and before one that does.
proof fn lemma_insertion_point(s: TextPairs, key: Seq<char>)
    ensures
        0 <= insertion_point(s, key) <= s.len(),
        forall|j: int| 0 <= j < insertion_point(s, key) ==> text_le(#[trigger] s[j].0, key),
        insertion_point(s, key) < s.len() ==> !text_le(s[insertion_point(s, key)].0, key),
    decreases s.len(),
{
    if s.len() > 0 && text_le(s[0].0, key) {
        let rest = s.drop_first();
        lemma_insertion_point(rest, key);
        assert forall|j: int| 0 <= j < insertion_point(s, key) implies text_le(
            #[trigger] s[j].0,
            key,
        ) by {
            if j > 0 {
                assert(s[j] == rest[j - 1]);
            }
        }
        if insertion_point(s, key) < s.len() {
            assert(s[insertion_point(s, key)] == rest[insertion_point(rest, key)]);
        }
    }
}

/// Every configuration has a canonical form.
proof fn lemma_canonical_exists(input: TextPairs)
    ensures
        exists|out: TextPairs| is_canonical_form_of(out, input),
    decreases input.len(),
{
    if input.len() == 0 {
        assert forall|key: Seq<char>| #[trigger]
            with_key(input, key) == with_key(input, key) by {}
        assert(is_canonical_form_of(input, input));
    } else {
        let init = input.drop_last();
        lemma_canonical_exists(init);
        let out = choose|out: TextPairs| is_canonical_form_of(out, init);
        let e = input.last();
        lemma_insertion_point(out, e.0);
        lemma_insert_keeps_canonical(out, init, insertion_point(out, e.0), e);
        assert(init.push(e) =~= input);
        assert(is_canonical_form_of(out.insert(insertion_point(out, e.0), e), input));
    }
}

/// Dropping the first pair of a key-sorted sequence leaves it key-sorted.
proof fn lemma_tail_key_sorted(x: TextPairs)
    requires
        key_sorted(x),
        x.len() > 0,
    ensures
        key_sorted(x.drop_first()),
{
    let xt = x.drop_first();
    assert forall|a: int, b: int| 0 <= a < b < xt.len() implies text_le(xt[a].0, xt[b].0) by {
        assert(xt[a] == x[a + 1] && xt[b] == x[b + 1]);
    }
}

/// Two key-sorted sequences of one length that agree, key by key, on the
/// pairs they list under the key are equal.
proof fn lemma_stable_order_unique(
    x: TextPairs,
    y: TextPairs,
)
    requires
        key_sorted(x),
        key_sorted(y),
        x.len() == y.len(),
        forall|key: Seq<char>| #[trigger] with_key(x, key) == with_key(y, key),
    ensures
        x == y,
    decreases x.len(),
{
    if x.len() == 0 {
        assert(x =~= y);
    } else {
        let xt = x.drop_first();
        let yt = y.drop_first();
        assert(x =~= seq![x[0]] + xt);
        assert(y =~= seq![y[0]] + yt);
        let kx = x[0].0;
        let ky = y[0].0;
        let px = has_key(kx);
        let py = has_key(ky);
        xt.lemma_filter_prepend(x[0], px);
        yt.lemma_filter_prepend(y[0], px);
        xt.lemma_filter_prepend(x[0], py);
        yt.lemma_filter_prepend(y[0], py);
        assert(with_key(x, kx) == with_key(y, kx));
        assert(with_key(x, ky) == with_key(y, ky));
        // The first keys agree: each sequence lists the other's first key somewhere.
        assert(kx == ky) by {
            let fy = y.filter(px);
            assert(fy.len() > 0);
            y.lemma_filter_pred(px, 0);
            y.lemma_filter_len(px);
            broadcast use Seq::lemma_filter_contains_rev;
            assert(fy.contains(fy[0]));
            assert(y.contains(fy[0]));
            let j = choose|j: int| 0 <= j < y.len() && y[j] == fy[0];
            lemma_text_le_reflexive(ky);
            assert(text_le(ky, y[j].0));
            let fx = x.filter(py);
            assert(fx.len() > 0);
            x.lemma_filter_pred(py, 0);
            assert(fx.contains(fx[0]));
            assert(x.contains(fx[0]));
            let i = choose|i: int| 0 <= i < x.len() && x[i] == fx[0];
            lemma_text_le_reflexive(kx);
            assert(text_le(kx, x[i].0));
            lemma_text_le_antisymmetric(kx, ky);
        }
        assert(x[0] == y[0]) by {
            assert(x.filter(px)[0] == x[0]);
            assert(y.filter(px)[0] == y[0]);
        }
        lemma_tail_key_sorted(x);
        lemma_tail_key_sorted(y);
        assert forall|key: Seq<char>| #[trigger] with_key(xt, key) == with_key(yt, key) by {
            let p = has_key(key);
            xt.lemma_filter_prepend(x[0], p);
            yt.lemma_filter_prepend(y[0], p);
            assert(with_key(x, key) == with_key(y, key));
            if p(x[0]) {
                assert((seq![x[0]] + xt.filter(p)).drop_first() =~= xt.filter(p));
                assert((seq![y[0]] + yt.filter(p)).drop_first() =~= yt.filter(p));
            } else {
                assert(TextPairs::empty() + xt.filter(p) =~= xt.filter(p));
                assert(TextPairs::empty() + yt.filter(p) =~= yt.filter(p));
            }
        }
        lemma_stable_order_unique(xt, yt);
    }
}

/// A configuration has one canonical form only.
pub proof fn lemma_canonical_form_unique(
    x: TextPairs,
    y: TextPairs,
    input: TextPairs,
)
    requires
        is_canonical_form_of(x, input),
        is_canonical_form_of(y, input),
    ensures
        x == y,
{
    to_multiset_len(x);
    to_multiset_len(y);
    assert forall|key: Seq<char>| #[trigger] with_key(x, key) == with_key(y, key) by {
        assert(with_key(x, key) == with_key(input, key));
        assert(with_key(y, key) == with_key(input, key));
    }
    lemma_stable_order_unique(x, y);
}

/// The canonical form of a configuration.
pub open spec fn canonical_order(input: TextPairs) -> TextPairs {
    choose|out: TextPairs| is_canonical_form_of(out, input)
}

/// The canonical order of a configuration is its canonical form.
pub proof fn lemma_canonical_order(input: TextPairs)
    ensures
        is_canonical_form_of(canonical_order(input), input),
{
    lemma_canonical_exists(input);
}

/// The identity that a name and a configuration resolve to.
pub open spec fn identity_of(name: Seq<char>, config: TextPairs) -> IdentityView {
    IdentityView { name, config: canonical_order(config) }
}

/// A permutation of pairs with distinct keys has distinct keys.
pub proof fn lemma_distinct_keys_carry(
    from: TextPairs,
    to: TextPairs,
)
    requires
        distinct_keys(from),
        from.to_multiset() == to.to_multiset(),
    ensures
        distinct_keys(to),
{
    broadcast use group_to_multiset_ensures;

    assert(from.no_duplicates());
    from.lemma_multiset_has_no_duplicates();
    to.lemma_multiset_has_no_duplicates_conv();
    assert forall|i: int, j: int| 0 <= i < j < to.len() implies to[i].0 != to[j].0 by {
        assert(to.to_multiset().contains(to[i]));
        assert(to.to_multiset().contains(to[j]));
        assert(from.contains(to[i]));
        assert(from.contains(to[j]));
        let a = choose|a: int| 0 <= a < from.len() && from[a] == to[i];
        let b = choose|b: int| 0 <= b < from.len() && from[b] == to[j];
        assert(to[i] != to[j]);
        assert(a != b);
        if a < b {
            assert(from[a].0 != from[b].0);
        } else {
            assert(from[b].0 != from[a].0);
        }
    }
}

/// Two key-sorted sequences that hold the same pairs, no key repeated, are equal.
pub proof fn lemma_sorted_distinct_unique(
    x: TextPairs,
    y: TextPairs,
)
    requires
        key_sorted(x),
        key_sorted(y),
        distinct_keys(x),
        x.to_multiset() == y.to_multiset(),
    ensures
        x == y,
    decreases x.len(),
{
    broadcast use vstd::multiset::group_multiset_axioms;
    broadcast use group_to_multiset_ensures;

    to_multiset_len(x);
    to_multiset_len(y);
    if x.len() == 0 {
        assert(x =~= y);
    } else {
        assert(x.to_multiset().contains(x[0]));
        assert(y.to_multiset().contains(y[0]));
        assert(y.contains(x[0]));
        assert(x.contains(y[0]));
        let i = choose|i: int| 0 <= i < y.len() && y[i] == x[0];
        let j = choose|j: int| 0 <= j < x.len() && x[j] == y[0];
        if j != 0 {
            assert(text_le(x[0].0, x[j].0));
            if i != 0 {
                assert(text_le(y[0].0, y[i].0));
            } else {
                lemma_text_le_reflexive(y[0].0);
            }
            lemma_text_le_antisymmetric(x[0].0, x[j].0);
            assert(x[0].0 != x[j].0);
        }
        assert(x[0] == y[0]);
        assert(x.drop_first().to_multiset() =~= x.to_multiset().remove(x[0])) by {
            to_multiset_remove(x, 0);
            assert(x.remove(0) =~= x.drop_first());
        }
        assert(y.drop_first().to_multiset() =~= y.to_multiset().remove(y[0])) by {
            to_multiset_remove(y, 0);
            assert(y.remove(0) =~= y.drop_first());
        }
        let xt = x.drop_first();
        let yt = y.drop_first();
        assert(key_sorted(xt)) by {
            assert forall|a: int, b: int| 0 <= a < b < xt.len() implies text_le(
                xt[a].0,
                xt[b].0,
            ) by {
                assert(xt[a] == x[a + 1] && xt[b] == x[b + 1]);
            }
        }
        assert(key_sorted(yt)) by {
            assert forall|a: int, b: int| 0 <= a < b < yt.len() implies text_le(
                yt[a].0,
                yt[b].0,
            ) by {
                assert(yt[a] == y[a + 1] && yt[b] == y[b + 1]);
            }
        }
        assert(distinct_keys(xt)) by {
            assert forall|a: int, b: int| 0 <= a < b < xt.len() implies xt[a].0 != xt[b].0 by {
                assert(xt[a] == x[a + 1] && xt[b] == x[b + 1]);
            }
        }
        lemma_sorted_distinct_unique(xt, yt);
        assert(x =~= seq![x[0]] + xt);
        assert(y =~= seq![y[0]] + yt);
    }
}

/// Order independence: a name with two configurations that hold the same
/// pairs in any order, no key repeated, resolves to one and the same identity.
pub proof fn law_identity_ignores_order(
    name: Seq<char>,
    c1: TextPairs,
    c2: TextPairs,
)
    requires
        c1.to_multiset() == c2.to_multiset(),
        distinct_keys(c1),
    ensures
        identity_of(name, c1) == identity_of(name, c2),
{
    lemma_canonical_order(c1);
    lemma_canonical_order(c2);
    lemma_distinct_keys_carry(c1, canonical_order(c1));
    lemma_sorted_distinct_unique(canonical_order(c1), canonical_order(c2));
}

/// Separation: identities resolved from different names, or from
/// configurations that differ in some pair, are different.
pub proof fn law_identity_tells_apart(
    n1: Seq<char>,
    c1: TextPairs,
    n2: Seq<char>,
    c2: TextPairs,
)
    requires
        n1 != n2 || c1.to_multiset() != c2.to_multiset(),
    ensures
        identity_of(n1, c1) != identity_of(n2, c2),
{
    lemma_canonical_order(c1);
    lemma_canonical_order(c2);
}

/// The canonical key of one configured plugin: its name and its configuration
/// pairs sorted by key.
#[derive(Debug, PartialEq, Eq, Hash)]
pub struct PluginIdentifier {
    name: String,
    config: Vec<(String, String)>,
}

impl View for PluginIdentifier {
    type V = IdentityView;

    closed spec fn view(&self) -> IdentityView {
        IdentityView { name: self.name@, config: self.config.deep_view() }
    }
}

/// A copy of a list of pairs.
pub fn copy_pairs(pairs: &Vec<(String, String)>) -> (out: Vec<(String, String)>)
    ensures
        out.deep_view() == pairs.deep_view(),
{
    let mut out: Vec<(String, String)> = Vec::new();
    let mut i: usize = 0;
    while i < pairs.len()
        invariant
            i <= pairs.len(),
            out.deep_view() == pairs.deep_view().take(i as int),
        decreases pairs.len() - i,
    {
        let ghost before = out.deep_view();
        out.push((pairs[i].0.clone(), pairs[i].1.clone()));
        proof {
            assert(out.deep_view() =~= before.push(pairs.deep_view()[i as int]));
            assert(pairs.deep_view().take(i as int).push(pairs.deep_view()[i as int])
                =~= pairs.deep_view().take(i + 1));
        }
        i = i + 1;
    }
    proof {
        assert(pairs.deep_view().take(pairs.len() as int) =~= pairs.deep_view());
    }
    out
}

impl Clone for PluginIdentifier {
    fn clone(&self) -> (copy: Self)
        ensures
            copy@ == self@,
    {
        proof {
            use_type_invariant(self);
        }
        PluginIdentifier { name: self.name.clone(), config: copy_pairs(&self.config) }
    }
}

impl PluginIdentifier {
    #[verifier::type_invariant]
    spec fn canonical(self) -> bool {
        key_sorted(self.config.deep_view())
    }

    /// Resolves a name and a configuration, listed in any order, to an identity.
    /// Pairs that repeat a key are all kept, in the order in which they were listed.
    pub fn from_map(name: String, config: &Vec<(String, String)>) -> (id: Self)
        ensures
            id@ == identity_of(name@, config.deep_view()),
            id@.name == name@,
            is_canonical_form_of(id@.config, config.deep_view()),
    {
        let mut sorted: Vec<(String, String)> = Vec::new();
        let mut i: usize = 0;
        proof {
            assert(config.deep_view().take(0) =~= sorted.deep_view());
        }
        while i < config.len()
            invariant
                i <= config.len(),
                is_canonical_form_of(sorted.deep_view(), config.deep_view().take(i as int)),
            decreases config.len() - i,
        {
            let key = config[i].0.clone();
            let value = config[i].1.clone();
            let mut pos: usize = 0;
            while pos < sorted.len() && precedes_or_equals(sorted[pos].0.as_str(), key.as_str())
                invariant
                    pos <= sorted.len(),
                    forall|j: int| 0 <= j < pos ==> text_le(#[trigger] sorted.deep_view()[j].0, key@),
                decreases sorted.len() - pos,
            {
                pos = pos + 1;
            }
            let ghost before = sorted.deep_view();
            let ghost pair = (key@, value@);
            proof {
                lemma_insert_keeps_canonical(
                    before,
                    config.deep_view().take(i as int),
                    pos as int,
                    pair,
                );
                assert(config.deep_view().take(i as int).push(pair) =~= config.deep_view().take(
                    i + 1,
                ));
            }
            sorted.insert(pos, (key, value));
            proof {
                assert(sorted.deep_view() =~= before.insert(pos as int, pair));
            }
            i = i + 1;
        }
        proof {
            assert(config.deep_view().take(config.len() as int) =~= config.deep_view());
            lemma_canonical_order(config.deep_view());
            lemma_canonical_form_unique(
                sorted.deep_view(),
                canonical_order(config.deep_view()),
                config.deep_view(),
            );
        }
        PluginIdentifier { name, config: sorted }
    }

    /// The plugin's name.
    pub fn name(&self) -> (s: &String)
        ensures
            s@ == self@.name,
    {
        &self.name
    }

    /// The configuration pairs, sorted by key.
    pub fn config(&self) -> (c: &Vec<(String, String)>)
        ensures
            c.deep_view() == self@.config,
            key_sorted(c.deep_view()),
    {
        proof {
            use_type_invariant(self);
        }
        &self.config
    }

    /// Whether two identities are the same: equal names and equal
    /// configuration pairs, position by position.
    pub fn same_as(&self, other: &PluginIdentifier) -> (b: bool)
        ensures
            b == (self@ == other@),
    {
        if self.name != other.name {
            return false;
        }
        if self.config.len() != other.config.len() {
            assert(self.config.deep_view().len() != other.config.deep_view().len());
            return false;
        }
        let mut i: usize = 0;
        while i < self.config.len()
            invariant
                i <= self.config.len(),
                self.config.len() == other.config.len(),
                forall|j: int| 0 <= j < i ==> #[trigger] self.config.deep_view()[j]
                    == other.config.deep_view()[j],
            decreases self.config.len() - i,
        {
            if self.config[i].0 != other.config[i].0 || self.config[i].1 != other.config[i].1 {
                assert(self.config.deep_view()[i as int] != other.config.deep_view()[i as int]);
                return false;
            }
            i = i + 1;
        }
        assert(self.config.deep_view() =~= other.config.deep_view());
        true
    }
}

} // verus!
