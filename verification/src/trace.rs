use vstd::prelude::*;
use crate::text::{append_str, numeral_value};

verus! {

/// What a node of a trace tree stands for: a code address of a frame, or
/// an annotation that a task wrote.
pub enum NodeKey {
    Address(usize),
    Annotation(String),
}

/// A node of a trace tree: the frames and annotations seen below it, how
/// many tasks were pending exactly here, messages, and (once computed) how
/// many nodes lie below it.
pub struct Node {
    pub children: Vec<(NodeKey, Node)>,
    pub count: usize,
    pub messages: Vec<String>,
    pub recursive_size: usize,
}

/// `NodeKey` as a mathematical value.
pub enum KeyModel {
    Address(int),
    Annotation(Seq<char>),
}

/// `Node` as a mathematical value.
pub struct TreeModel {
    pub children: Seq<(KeyModel, TreeModel)>,
    pub count: int,
    pub messages: Seq<Seq<char>>,
    pub size: int,
}

pub open spec fn key_model(k: NodeKey) -> KeyModel {
    match k {
        NodeKey::Address(a) => KeyModel::Address(a as int),
        NodeKey::Annotation(s) => KeyModel::Annotation(s@),
    }
}

pub open spec fn strings_model(v: Seq<String>) -> Seq<Seq<char>> {
    v.map_values(|s: String| s@)
}

pub open spec fn node_model(n: Node) -> TreeModel
    decreases n, 1int,
{
    TreeModel {
        children: children_model(n.children@),
        count: n.count as int,
        messages: strings_model(n.messages@),
        size: n.recursive_size as int,
    }
}

pub open spec fn children_model(v: Seq<(NodeKey, Node)>) -> Seq<(KeyModel, TreeModel)>
    decreases v, 0int,
{
    if v.len() == 0 {
        Seq::empty()
    } else {
        seq![(key_model(v[0].0), node_model(v[0].1))] + children_model(v.drop_first())
    }
}

proof fn lemma_children_model(v: Seq<(NodeKey, Node)>)
    ensures
        children_model(v).len() == v.len(),
        forall|i: int|
            0 <= i < v.len() ==> #[trigger] children_model(v)[i] == (key_model(v[i].0), node_model(v[i].1)),
    decreases v.len(),
{
    if v.len() > 0 {
        lemma_children_model(v.drop_first());
        assert forall|i: int| 0 <= i < v.len() implies #[trigger] children_model(v)[i] == (
            key_model(v[i].0),
            node_model(v[i].1),
        ) by {
            if i > 0 {
                assert(v.drop_first()[i - 1] == v[i]);
            }
        }
    }
}

/// A tree with nothing in it.
pub open spec fn empty_tree() -> TreeModel {
    TreeModel { children: Seq::empty(), count: 0, messages: Seq::empty(), size: 0 }
}

/// Where the first child with key `k` is.
pub open spec fn find_key(ch: Seq<(KeyModel, TreeModel)>, k: KeyModel) -> Option<int>
    decreases ch.len(),
{
    if ch.len() == 0 {
        None
    } else if ch.last().0 == k && find_key(ch.drop_last(), k) is None {
        Some(ch.len() - 1)
    } else {
        find_key(ch.drop_last(), k)
    }
}

/// The tree after one more task was seen pending at the end of `keys`,
/// read from the root: the nodes on the way are made where missing.
pub open spec fn inserted(t: TreeModel, keys: Seq<KeyModel>) -> TreeModel
    decreases keys.len(),
{
    if keys.len() == 0 {
        TreeModel { count: t.count + 1, ..t }
    } else {
        match find_key(t.children, keys[0]) {
            Some(i) => TreeModel {
                children: t.children.update(i, (t.children[i].0, inserted(t.children[i].1, keys.drop_first()))),
                ..t
            },
            None => TreeModel {
                children: t.children.push((keys[0], inserted(empty_tree(), keys.drop_first()))),
                ..t
            },
        }
    }
}

/// How many tasks were seen pending at the end of `keys`.
pub open spec fn count_at(t: TreeModel, keys: Seq<KeyModel>) -> int
    decreases keys.len(),
{
    if keys.len() == 0 {
        t.count
    } else {
        match find_key(t.children, keys[0]) {
            Some(i) => count_at(t.children[i].1, keys.drop_first()),
            None => 0,
        }
    }
}

/// The tree with each node's size set to the number of nodes below it.
pub open spec fn sized(t: TreeModel) -> TreeModel
    decreases t, 2int,
{
    TreeModel { children: sized_children(t.children), size: sizes_sum(t.children), ..t }
}

pub open spec fn sized_children(ch: Seq<(KeyModel, TreeModel)>) -> Seq<(KeyModel, TreeModel)>
    decreases ch, 1int,
{
    if ch.len() == 0 {
        Seq::empty()
    } else {
        sized_children(ch.drop_last()).push((ch.last().0, sized(ch.last().1)))
    }
}

/// The number of nodes below children `ch`, themselves included.
pub open spec fn sizes_sum(ch: Seq<(KeyModel, TreeModel)>) -> int
    decreases ch, 1int,
{
    if ch.len() == 0 {
        0
    } else {
        sizes_sum(ch.drop_last()) + sized(ch.last().1).size + 1
    }
}

impl NodeKey {
    /// Whether two keys are the same.
    pub fn same(&self, other: &NodeKey) -> (r: bool)
        ensures
            r == (key_model(*self) == key_model(*other)),
    {
        match self {
            NodeKey::Address(a) => match other {
                NodeKey::Address(b) => *a == *b,
                NodeKey::Annotation(_) => false,
            },
            NodeKey::Annotation(a) => match other {
                NodeKey::Address(_) => false,
                NodeKey::Annotation(b) => a.eq(b),
            },
        }
    }
}

proof fn lemma_find_key(ch: Seq<(KeyModel, TreeModel)>, k: KeyModel)
    ensures
        match find_key(ch, k) {
            Some(i) => 0 <= i < ch.len() && ch[i].0 == k && forall|j: int| 0 <= j < i ==> ch[j].0 != k,
            None => forall|j: int| 0 <= j < ch.len() ==> ch[j].0 != k,
        },
    decreases ch.len(),
{
    if ch.len() > 0 {
        lemma_find_key(ch.drop_last(), k);
        match find_key(ch.drop_last(), k) {
            Some(i) => {
                assert(ch.drop_last()[i] == ch[i]);
                assert forall|j: int| 0 <= j < i implies ch[j].0 != k by {
                    assert(ch.drop_last()[j] == ch[j]);
                }
            },
            None => {
                assert forall|j: int| 0 <= j < ch.len() - 1 implies ch[j].0 != k by {
                    assert(ch.drop_last()[j] == ch[j]);
                }
            },
        }
    }
}

/// A search that stops at the first match agrees with `find_key`.
proof fn lemma_find_key_first(ch: Seq<(KeyModel, TreeModel)>, k: KeyModel, i: int)
    requires
        0 <= i < ch.len(),
        ch[i].0 == k,
        forall|j: int| 0 <= j < i ==> ch[j].0 != k,
    ensures
        find_key(ch, k) == Some(i),
{
    lemma_find_key(ch, k);
    match find_key(ch, k) {
        Some(f) => {
            if f < i {
                assert(ch[f].0 != k);
            } else if f > i {
            }
        },
        None => {
            assert(ch[i].0 != k);
        },
    }
}

impl Node {
    pub fn new() -> (r: Self)
        ensures
            node_model(r) == empty_tree(),
    {
        let r = Node { children: Vec::new(), count: 0, messages: Vec::new(), recursive_size: 0 };
        assert(children_model(r.children@) =~= Seq::empty());
        assert(strings_model(r.messages@) =~= Seq::empty());
        r
    }

    /// Where the first child with key `key` is.
    fn find(&self, key: &NodeKey) -> (r: Option<usize>)
        ensures
            match r {
                Some(i) => find_key(node_model(*self).children, key_model(*key)) == Some(i as int),
                None => find_key(node_model(*self).children, key_model(*key)) is None,
            },
    {
        let ghost ch = node_model(*self).children;
        proof {
            lemma_children_model(self.children@);
            lemma_find_key(ch, key_model(*key));
        }
        let mut i: usize = 0;
        while i < self.children.len()
            invariant
                ch == node_model(*self).children,
                ch.len() == self.children@.len(),
                forall|j: int| 0 <= j < ch.len() ==> #[trigger] ch[j] == (key_model(self.children@[j].0), node_model(self.children@[j].1)),
                i <= ch.len(),
                forall|j: int| 0 <= j < i ==> ch[j].0 != key_model(*key),
            decreases ch.len() - i,
        {
            assert(ch[i as int] == (key_model(self.children@[i as int].0), node_model(self.children@[i as int].1)));
            if self.children[i].0.same(key) {
                proof {
                    lemma_find_key_first(ch, key_model(*key), i as int);
                }
                return Some(i);
            }
            i = i + 1;
        }
        None
    }

    /// Counts one more task pending at the end of `keys`, read from this
    /// node: the nodes on the way are made where missing.
    pub fn insert_count(&mut self, keys: Vec<NodeKey>)
        requires
            count_at(node_model(*old(self)), keys@.map_values(|k: NodeKey| key_model(k))) < usize::MAX,
        ensures
            node_model(*final(self)) == inserted(node_model(*old(self)), keys@.map_values(|k: NodeKey| key_model(k))),
        decreases keys@.len(),
    {
        let ghost km = keys@.map_values(|k: NodeKey| key_model(k));
        let ghost t0 = node_model(*self);
        proof {
            lemma_children_model(self.children@);
        }
        if keys.len() == 0 {
            self.count = self.count + 1;
            proof {
                assert(node_model(*self) =~= TreeModel { count: t0.count + 1, ..t0 });
            }
            return;
        }
        let mut keys = keys;
        let first = keys.remove(0);
        let ghost rest = keys@.map_values(|k: NodeKey| key_model(k));
        assert(rest =~= km.drop_first());
        assert(km[0] == key_model(first));
        proof {
            lemma_find_key(t0.children, key_model(first));
        }
        match self.find(&first) {
            Some(i) => {
                let (k, mut child) = self.children.remove(i);
                assert(t0.children[i as int] == (key_model(k), node_model(child)));
                assert(km.len() > 0);
                assert(find_key(t0.children, km[0]) == Some(i as int));
                assert(count_at(t0, km) == count_at(t0.children[i as int].1, km.drop_first()));
                child.insert_count(keys);
                let ghost before = self.children@;
                self.children.insert(i, (k, child));
                proof {
                    lemma_children_model(self.children@);
                    assert(children_model(self.children@) =~= t0.children.update(
                        i as int,
                        (t0.children[i as int].0, inserted(t0.children[i as int].1, km.drop_first())),
                    ));
                    assert(node_model(*self) =~= inserted(t0, km));
                }
            },
            None => {
                let mut child = Node::new();
                proof {
                    reveal_with_fuel(count_at, 2);
                }
                child.insert_count(keys);
                self.children.push((first, child));
                proof {
                    lemma_children_model(self.children@);
                    assert(children_model(self.children@) =~= t0.children.push(
                        (key_model(first), inserted(empty_tree(), km.drop_first())),
                    ));
                    assert(node_model(*self) =~= inserted(t0, km));
                }
            },
        }
    }
}

/// Replacing a child's subtree does not move any key.
proof fn lemma_find_key_update(ch: Seq<(KeyModel, TreeModel)>, i: int, v: TreeModel, k: KeyModel)
    requires
        0 <= i < ch.len(),
    ensures
        find_key(ch.update(i, (ch[i].0, v)), k) == find_key(ch, k),
    decreases ch.len(),
{
    let u = ch.update(i, (ch[i].0, v));
    if i == ch.len() - 1 {
        assert(u.drop_last() =~= ch.drop_last());
    } else {
        assert(u.drop_last() =~= ch.drop_last().update(i, (ch[i].0, v)));
        lemma_find_key_update(ch.drop_last(), i, v, k);
    }
}

/// A tree with nothing in it counts nothing anywhere.
proof fn lemma_count_empty(keys: Seq<KeyModel>)
    ensures
        count_at(empty_tree(), keys) == 0,
{
}

/// Counting a task at `keys` adds one there and changes no other count.
pub proof fn insert_counts_once(t: TreeModel, keys: Seq<KeyModel>, other: Seq<KeyModel>)
    ensures
        count_at(inserted(t, keys), keys) == count_at(t, keys) + 1,
        other != keys ==> count_at(inserted(t, keys), other) == count_at(t, other),
    decreases keys.len(),
{
    let n = inserted(t, keys);
    if keys.len() == 0 {
        if other.len() > 0 {
            assert(n.children == t.children);
        } else {
            assert(other =~= keys);
        }
    } else {
        let k = keys[0];
        let rest = keys.drop_first();
        lemma_find_key(t.children, k);
        match find_key(t.children, k) {
            Some(i) => {
                let c = t.children[i].1;
                assert(n.children == t.children.update(i, (t.children[i].0, inserted(c, rest))));
                lemma_find_key_update(t.children, i, inserted(c, rest), k);
                if other.len() == 0 {
                    insert_counts_once(c, rest, rest);
                } else {
                    let k2 = other[0];
                    let rest2 = other.drop_first();
                    lemma_find_key_update(t.children, i, inserted(c, rest), k2);
                    lemma_find_key(t.children, k2);
                    if k2 == k {
                        if rest2 != rest {
                            insert_counts_once(c, rest, rest2);
                        } else {
                            assert(other =~= seq![k2] + rest2);
                            assert(keys =~= seq![k] + rest);
                        }
                    }
                    insert_counts_once(c, rest, rest);
                }
            },
            None => {
                let e = inserted(empty_tree(), rest);
                assert(n.children == t.children.push((k, e)));
                assert(t.children.push((k, e)).drop_last() =~= t.children);
                lemma_count_empty(rest);
                insert_counts_once(empty_tree(), rest, rest);
                if other.len() > 0 {
                    let k2 = other[0];
                    let rest2 = other.drop_first();
                    if k2 == k {
                        if rest2 != rest {
                            insert_counts_once(empty_tree(), rest, rest2);
                            lemma_count_empty(rest2);
                        } else {
                            assert(other =~= seq![k2] + rest2);
                            assert(keys =~= seq![k] + rest);
                        }
                    } else {
                        lemma_find_key(t.children, k2);
                        lemma_find_key(t.children.push((k, e)), k2);
                    }
                }
            },
        }
    }
}

proof fn lemma_sizes_sum(ch: Seq<(KeyModel, TreeModel)>, i: int)
    requires
        0 <= i <= ch.len(),
    ensures
        0 <= sizes_sum(ch.take(i)) <= sizes_sum(ch),
        i < ch.len() ==> sizes_sum(ch.take(i)) + sized(ch[i].1).size + 1 <= sizes_sum(ch),
        sized(empty_tree()).size == 0,
    decreases ch.len() - i,
{
    lemma_sized_nonneg_all(ch);
    lemma_sized_nonneg_all(ch.take(i));
    if i < ch.len() {
        lemma_sizes_sum(ch, i + 1);
        assert(ch.take(i + 1).drop_last() =~= ch.take(i));
        assert(ch.take(i + 1).last() == ch[i]);
        assert(sized(ch[i].1).size >= 0);
    } else {
        assert(ch.take(i) =~= ch);
    }
}

proof fn lemma_sized_nonneg_all(ch: Seq<(KeyModel, TreeModel)>)
    ensures
        sizes_sum(ch) >= 0,
        forall|j: int| 0 <= j < ch.len() ==> #[trigger] sized(ch[j].1).size >= 0,
    decreases ch, 0int,
{
    if ch.len() > 0 {
        lemma_sized_nonneg_all(ch.drop_last());
        lemma_sized_nonneg(ch.last().1);
        assert forall|j: int| 0 <= j < ch.len() implies #[trigger] sized(ch[j].1).size >= 0 by {
            if j < ch.len() - 1 {
                assert(ch.drop_last()[j] == ch[j]);
            }
        }
    }
}

proof fn lemma_sized_nonneg(t: TreeModel)
    ensures
        sized(t).size >= 0,
    decreases t, 1int,
{
    lemma_sized_nonneg_all(t.children);
}

impl Node {
    /// Sets the size of this node and of every node below it to the number
    /// of nodes below it.
    pub fn compute_recursive_size(&mut self)
        requires
            sized(node_model(*old(self))).size <= usize::MAX,
        ensures
            node_model(*final(self)) == sized(node_model(*old(self))),
        decreases node_model(*old(self)),
    {
        let ghost t0 = node_model(*self);
        let ghost ch = t0.children;
        proof {
            lemma_children_model(self.children@);
        }
        let n = self.children.len();
        let mut total: usize = 0;
        let mut i: usize = 0;
        assert(sized_children(ch.take(0)) + ch.skip(0) =~= ch);
        while i < n
            invariant
                n == ch.len(),
                n == self.children@.len(),
                i <= n,
                t0 == node_model(*old(self)),
                ch == t0.children,
                sizes_sum(ch) <= usize::MAX,
                self.count == old(self).count,
                self.messages == old(self).messages,
                self.recursive_size == old(self).recursive_size,
                children_model(self.children@) == sized_children(ch.take(i as int)) + ch.skip(i as int),
                total == sizes_sum(ch.take(i as int)),
            decreases n - i,
        {
            proof {
                lemma_children_model(self.children@);
                lemma_sizes_sum(ch, i as int);
                assert(children_model(self.children@)[i as int] == ch[i as int]);
            }
            let ghost before = self.children@;
            let (k, mut c) = self.children.remove(i);
            assert(before[i as int] == (k, c));
            assert(node_model(c) == ch[i as int].1);
            proof {
                lemma_sized_nonneg(ch[i as int].1);
            }
            c.compute_recursive_size();
            total = total + c.recursive_size + 1;
            self.children.insert(i, (k, c));
            proof {
                lemma_children_model(self.children@);
                lemma_children_model(before);
                assert(ch.take(i + 1).drop_last() =~= ch.take(i as int));
                assert(sized_children(ch.take(i + 1)) == sized_children(ch.take(i as int)).push(
                    (ch[i as int].0, sized(ch[i as int].1)),
                ));
                assert(children_model(self.children@) =~= sized_children(ch.take(i + 1)) + ch.skip(i + 1)) by {
                    assert forall|j: int| 0 <= j < n implies #[trigger] children_model(self.children@)[j]
                        == (sized_children(ch.take(i + 1)) + ch.skip(i + 1))[j] by {
                        if j != i {
                            assert(self.children@[j] == before[j]);
                            assert(children_model(before)[j] == (sized_children(ch.take(i as int)) + ch.skip(i as int))[j]);
                        }
                    }
                }
            }
            i = i + 1;
        }
        self.recursive_size = total;
        proof {
            assert(ch.take(n as int) =~= ch);
            assert(ch.skip(n as int) =~= Seq::<(KeyModel, TreeModel)>::empty());
            assert(children_model(self.children@) =~= sized_children(ch));
            assert(node_model(*self) =~= sized(t0));
        }
    }
}

/// Whether text `s` comes before text `t`, comparing characters in turn.
pub open spec fn text_lt(s: Seq<char>, t: Seq<char>) -> bool
    decreases s.len(),
{
    if s.len() == 0 {
        t.len() > 0
    } else if t.len() == 0 {
        false
    } else if s[0] != t[0] {
        (s[0] as u32) < (t[0] as u32)
    } else {
        text_lt(s.drop_first(), t.drop_first())
    }
}

/// The order of keys: addresses first, by value; then annotations, by text.
pub open spec fn key_lt(a: KeyModel, b: KeyModel) -> bool {
    match (a, b) {
        (KeyModel::Address(x), KeyModel::Address(y)) => x < y,
        (KeyModel::Address(_), KeyModel::Annotation(_)) => true,
        (KeyModel::Annotation(_), KeyModel::Address(_)) => false,
        (KeyModel::Annotation(s), KeyModel::Annotation(t)) => text_lt(s, t),
    }
}

/// Whether child `a` is shown before child `b`: larger subtrees first,
/// then by key.
pub open spec fn shown_before(a: (KeyModel, TreeModel), b: (KeyModel, TreeModel)) -> bool {
    a.1.size > b.1.size || (a.1.size == b.1.size && key_lt(a.0, b.0))
}

/// Among the first `upto` entries of `rem`, the position of the first one
/// that no later one is shown before.
pub open spec fn best_of(ch: Seq<(KeyModel, TreeModel)>, rem: Seq<int>, upto: int) -> int
    decreases upto,
{
    if upto <= 1 {
        0
    } else {
        let b = best_of(ch, rem, upto - 1);
        if shown_before(ch[rem[upto - 1]], ch[rem[b]]) {
            upto - 1
        } else {
            b
        }
    }
}

/// The children at positions `rem`, in the order they are shown: the one
/// shown first, then the rest in their order.
pub open spec fn show_order(ch: Seq<(KeyModel, TreeModel)>, rem: Seq<int>) -> Seq<int>
    decreases rem.len(),
{
    if rem.len() == 0 {
        Seq::empty()
    } else {
        let b = best_of(ch, rem, rem.len() as int);
        if 0 <= b < rem.len() {
            seq![rem[b]] + show_order(ch, rem.remove(b))
        } else {
            Seq::empty()
        }
    }
}

/// Positions `0` up to `n`.
pub open spec fn positions(n: int) -> Seq<int> {
    Seq::new(n as nat, |i: int| i)
}


/// The lines that name a node: the address's symbols, or the annotation.
pub open spec fn symbols_of(k: KeyModel, table: Seq<(int, Seq<Seq<char>>)>) -> Seq<Seq<char>> {
    match k {
        KeyModel::Address(a) => match symbol_entry(table, a) {
            Some(i) => table[i].1,
            None => Seq::empty(),
        },
        KeyModel::Annotation(s) => seq![s],
    }
}

/// Where the first entry for address `a` is.
pub open spec fn symbol_entry(table: Seq<(int, Seq<Seq<char>>)>, a: int) -> Option<int>
    decreases table.len(),
{
    if table.len() == 0 {
        None
    } else if table.last().0 == a && symbol_entry(table.drop_last(), a) is None {
        Some(table.len() - 1)
    } else {
        symbol_entry(table.drop_last(), a)
    }
}

/// A line: the indent, the text, a line break.
pub open spec fn line(indent: Seq<char>, text: Seq<char>) -> Seq<char> {
    indent + text + "\n"@
}

/// The symbol lines of a child, deepest frame first; the outermost one
/// carries the branch mark when the parent has more than one child.
pub open spec fn symbol_lines(
    indent: Seq<char>,
    inner: Seq<char>,
    syms: Seq<Seq<char>>,
    first: bool,
    extra: bool,
    depth: int,
) -> Seq<char>
    decreases depth,
{
    if depth <= 0 || depth > syms.len() {
        Seq::empty()
    } else if depth == 1 {
        if extra {
            line(indent + (if first { "┏━━ "@ } else { "┣━━ "@ }), syms[0]) + line(
                indent + "┃   "@,
                Seq::empty(),
            )
        } else {
            line(inner, syms[0])
        }
    } else {
        line(inner, syms[depth - 1]) + symbol_lines(indent, inner, syms, first, extra, depth - 1)
    }
}

/// The decimal digits of `n`.
pub open spec fn decimal(n: nat) -> Seq<char>
    decreases n,
{
    if n < 10 {
        digit(n)
    } else {
        decimal(n / 10) + digit(n % 10)
    }
}

pub open spec fn digit(d: nat) -> Seq<char> {
    if d == 0 {
        "0"@
    } else if d == 1 {
        "1"@
    } else if d == 2 {
        "2"@
    } else if d == 3 {
        "3"@
    } else if d == 4 {
        "4"@
    } else if d == 5 {
        "5"@
    } else if d == 6 {
        "6"@
    } else if d == 7 {
        "7"@
    } else if d == 8 {
        "8"@
    } else {
        "9"@
    }
}

/// A node printed below the lines of its children: its pending count and
/// its messages.
pub open spec fn node_tail(indent: Seq<char>, t: TreeModel) -> Seq<char> {
    (if t.count > 0 {
        line(indent, decimal(t.count as nat) + " pending"@)
    } else {
        Seq::empty()
    }) + message_lines(indent, t.messages, t.messages.len() as int)
}

pub open spec fn message_lines(indent: Seq<char>, msgs: Seq<Seq<char>>, upto: int) -> Seq<char>
    decreases upto,
{
    if upto <= 0 || upto > msgs.len() {
        Seq::empty()
    } else {
        message_lines(indent, msgs, upto - 1) + line(indent, "● "@ + msgs[upto - 1])
    }
}

/// A trace tree printed with `indent`: each child in its order, its own
/// subtree above its symbol lines, then the node's tail.
pub open spec fn print_tree(indent: Seq<char>, t: TreeModel, table: Seq<(int, Seq<Seq<char>>)>) -> Seq<char>
    decreases t, 2int,
{
    let ord = show_order(t.children, positions(t.children.len() as int));
    print_children(indent, t.children, ord, table, ord.len() as int) + node_tail(indent, t)
}

/// The first `upto` children in the order `ord`.
pub open spec fn print_children(
    indent: Seq<char>,
    ch: Seq<(KeyModel, TreeModel)>,
    ord: Seq<int>,
    table: Seq<(int, Seq<Seq<char>>)>,
    upto: int,
) -> Seq<char>
    decreases ch, 1int, upto,
{
    if upto <= 0 || upto > ord.len() {
        Seq::empty()
    } else {
        let k = upto - 1;
        let i = ord[k];
        if 0 <= i < ch.len() {
            print_children(indent, ch, ord, table, k) + print_child(indent, ch[i], k == 0, ch.len() > 1, table)
        } else {
            Seq::empty()
        }
    }
}

/// One child: its subtree, indented further when it has siblings, then its
/// symbol lines.
pub open spec fn print_child(
    indent: Seq<char>,
    c: (KeyModel, TreeModel),
    first: bool,
    extra: bool,
    table: Seq<(int, Seq<Seq<char>>)>,
) -> Seq<char>
    decreases c, 0int, 0int,
{
    let inner = if extra {
        indent + (if first { "    "@ } else { "┃   "@ })
    } else {
        indent
    };
    let syms = symbols_of(c.0, table);
    print_tree(inner, c.1, table) + symbol_lines(indent, inner, syms, first, extra, syms.len() as int)
}

proof fn lemma_best_of(ch: Seq<(KeyModel, TreeModel)>, rem: Seq<int>, upto: int)
    requires
        upto >= 1,
    ensures
        0 <= best_of(ch, rem, upto) < upto,
    decreases upto,
{
    if upto > 1 {
        lemma_best_of(ch, rem, upto - 1);
    }
}

/// Whether text `a` comes before text `b`.
fn text_less(a: &str, b: &str) -> (r: bool)
    ensures
        r == text_lt(a@, b@),
{
    let n = a.unicode_len();
    let m = b.unicode_len();
    let mut i: usize = 0;
    assert(a@.skip(0) =~= a@);
    assert(b@.skip(0) =~= b@);
    while i < n && i < m
        invariant
            n == a@.len(),
            m == b@.len(),
            i <= n,
            i <= m,
            text_lt(a@, b@) == text_lt(a@.skip(i as int), b@.skip(i as int)),
        decreases n - i,
    {
        let x = a.get_char(i);
        let y = b.get_char(i);
        assert(a@.skip(i as int)[0] == x && b@.skip(i as int)[0] == y);
        if x != y {
            return (x as u32) < (y as u32);
        }
        assert(a@.skip(i as int).drop_first() =~= a@.skip(i + 1));
        assert(b@.skip(i as int).drop_first() =~= b@.skip(i + 1));
        i = i + 1;
    }
    i < m
}

/// Whether child `a` is shown before child `b`.
fn shown_first(a: &(NodeKey, Node), b: &(NodeKey, Node)) -> (r: bool)
    ensures
        r == shown_before((key_model(a.0), node_model(a.1)), (key_model(b.0), node_model(b.1))),
{
    if a.1.recursive_size != b.1.recursive_size {
        return a.1.recursive_size > b.1.recursive_size;
    }
    match &a.0 {
        NodeKey::Address(x) => match &b.0 {
            NodeKey::Address(y) => *x < *y,
            NodeKey::Annotation(_) => true,
        },
        NodeKey::Annotation(s) => match &b.0 {
            NodeKey::Address(_) => false,
            NodeKey::Annotation(t) => text_less(s.as_str(), t.as_str()),
        },
    }
}

/// Where in `rem` the child shown first is.
fn best_child(children: &Vec<(NodeKey, Node)>, rem: &Vec<usize>) -> (r: usize)
    requires
        rem@.len() > 0,
        forall|j: int| 0 <= j < rem@.len() ==> rem@[j] < children@.len(),
    ensures
        r == best_of(children_model(children@), rem@.map_values(|x: usize| x as int), rem@.len() as int),
{
    let ghost ch = children_model(children@);
    let ghost ri = rem@.map_values(|x: usize| x as int);
    proof {
        lemma_children_model(children@);
    }
    let mut best: usize = 0;
    let mut j: usize = 1;
    while j < rem.len()
        invariant
            ch == children_model(children@),
            ch.len() == children@.len(),
            forall|q: int| 0 <= q < ch.len() ==> #[trigger] ch[q] == (key_model(children@[q].0), node_model(children@[q].1)),
            ri == rem@.map_values(|x: usize| x as int),
            forall|q: int| 0 <= q < rem@.len() ==> rem@[q] < children@.len(),
            1 <= j <= rem@.len(),
            best == best_of(ch, ri, j as int),
            best < j,
        decreases rem@.len() - j,
    {
        proof {
            lemma_best_of(ch, ri, j as int);
        }
        let a = rem[j];
        let c = rem[best];
        assert(ch[a as int] == (key_model(children@[a as int].0), node_model(children@[a as int].1)));
        assert(ch[c as int] == (key_model(children@[c as int].0), node_model(children@[c as int].1)));
        if shown_first(&children[a], &children[c]) {
            best = j;
        }
        j = j + 1;
    }
    best
}

/// Where the first entry for address `a` is.
fn entry_of(table: &Vec<(usize, Vec<String>)>, a: usize) -> (r: Option<usize>)
    ensures
        match r {
            Some(i) => symbol_entry(table_model(table@), a as int) == Some(i as int),
            None => symbol_entry(table_model(table@), a as int) is None,
        },
{
    let ghost tm = table_model(table@);
    proof {
        lemma_symbol_entry(tm, a as int);
    }
    let mut i: usize = 0;
    while i < table.len()
        invariant
            tm == table_model(table@),
            tm.len() == table@.len(),
            forall|q: int| 0 <= q < tm.len() ==> #[trigger] tm[q].0 == table@[q].0 as int,
            i <= table@.len(),
            forall|q: int| 0 <= q < i ==> tm[q].0 != a,
        decreases table@.len() - i,
    {
        if table[i].0 == a {
            proof {
                lemma_symbol_entry_first(tm, a as int, i as int);
            }
            return Some(i);
        }
        i = i + 1;
    }
    None
}

/// The symbol table as a value.
pub open spec fn table_model(t: Seq<(usize, Vec<String>)>) -> Seq<(int, Seq<Seq<char>>)> {
    t.map_values(|e: (usize, Vec<String>)| (e.0 as int, strings_model(e.1@)))
}

proof fn lemma_symbol_entry(t: Seq<(int, Seq<Seq<char>>)>, a: int)
    ensures
        match symbol_entry(t, a) {
            Some(i) => 0 <= i < t.len() && t[i].0 == a && forall|j: int| 0 <= j < i ==> t[j].0 != a,
            None => forall|j: int| 0 <= j < t.len() ==> t[j].0 != a,
        },
    decreases t.len(),
{
    if t.len() > 0 {
        lemma_symbol_entry(t.drop_last(), a);
        match symbol_entry(t.drop_last(), a) {
            Some(i) => {
                assert(t.drop_last()[i] == t[i]);
                assert forall|j: int| 0 <= j < i implies t[j].0 != a by {
                    assert(t.drop_last()[j] == t[j]);
                }
            },
            None => {
                assert forall|j: int| 0 <= j < t.len() - 1 implies t[j].0 != a by {
                    assert(t.drop_last()[j] == t[j]);
                }
            },
        }
    }
}

proof fn lemma_symbol_entry_first(t: Seq<(int, Seq<Seq<char>>)>, a: int, i: int)
    requires
        0 <= i < t.len(),
        t[i].0 == a,
        forall|j: int| 0 <= j < i ==> t[j].0 != a,
    ensures
        symbol_entry(t, a) == Some(i),
{
    lemma_symbol_entry(t, a);
    match symbol_entry(t, a) {
        Some(f) => {
            if f < i {
                assert(t[f].0 != a);
            }
        },
        None => {
            assert(t[i].0 != a);
        },
    }
}

/// Writes `indent`, `text` and a line break.
fn write_line(out: &mut String, indent: &str, text: &str)
    ensures
        final(out)@ == old(out)@ + line(indent@, text@),
{
    append_str(out, indent);
    append_str(out, text);
    append_str(out, "\n");
    assert(final(out)@ =~= old(out)@ + line(indent@, text@));
}

/// Writes the decimal digits of `n`.
fn write_decimal(out: &mut String, n: usize)
    ensures
        final(out)@ == old(out)@ + decimal(n as nat),
    decreases n,
{
    if n >= 10 {
        write_decimal(out, n / 10);
    }
    let d = n % 10;
    if d == 0 {
        append_str(out, "0");
    } else if d == 1 {
        append_str(out, "1");
    } else if d == 2 {
        append_str(out, "2");
    } else if d == 3 {
        append_str(out, "3");
    } else if d == 4 {
        append_str(out, "4");
    } else if d == 5 {
        append_str(out, "5");
    } else if d == 6 {
        append_str(out, "6");
    } else if d == 7 {
        append_str(out, "7");
    } else if d == 8 {
        append_str(out, "8");
    } else {
        append_str(out, "9");
    }
    proof {
        if n >= 10 {
            assert(decimal(n as nat) == decimal((n / 10) as nat) + digit((n % 10) as nat));
        }
    }
    assert(final(out)@ =~= old(out)@ + decimal(n as nat));
}

/// Writes the symbol lines of a child.
fn write_symbol_lines(out: &mut String, indent: &str, inner: &str, syms: &Vec<String>, first: bool, extra: bool)
    ensures
        final(out)@ == old(out)@ + symbol_lines(
            indent@,
            inner@,
            strings_model(syms@),
            first,
            extra,
            syms@.len() as int,
        ),
{
    let ghost sm = strings_model(syms@);
    let ghost start = out@;
    let mut d: usize = syms.len();
    while d > 0
        invariant
            sm == strings_model(syms@),
            sm.len() == syms@.len(),
            d <= syms@.len(),
            out@ + symbol_lines(indent@, inner@, sm, first, extra, d as int) == start + symbol_lines(
                indent@,
                inner@,
                sm,
                first,
                extra,
                syms@.len() as int,
            ),
        decreases d,
    {
        let ghost before = out@;
        assert(sm[d - 1] == syms@[d - 1]@);
        if d == 1 && extra {
            let mut mark = indent.to_owned();
            if first {
                append_str(&mut mark, "┏━━ ");
            } else {
                append_str(&mut mark, "┣━━ ");
            }
            write_line(out, mark.as_str(), syms[0].as_str());
            let mut cont = indent.to_owned();
            append_str(&mut cont, "┃   ");
            write_line(out, cont.as_str(), "");
            proof {
                reveal_strlit("");
                assert(""@ =~= Seq::<char>::empty());
                assert(symbol_lines(indent@, inner@, sm, first, extra, 0) =~= Seq::<char>::empty());
                assert(out@ + symbol_lines(indent@, inner@, sm, first, extra, 0) =~= before + symbol_lines(
                    indent@,
                    inner@,
                    sm,
                    first,
                    extra,
                    1,
                ));
            }
        } else {
            write_line(out, inner, syms[d - 1].as_str());
            proof {
                if d == 1 {
                    assert(symbol_lines(indent@, inner@, sm, first, extra, 0) =~= Seq::<char>::empty());
                }
                assert(out@ + symbol_lines(indent@, inner@, sm, first, extra, d - 1) =~= before + symbol_lines(
                    indent@,
                    inner@,
                    sm,
                    first,
                    extra,
                    d as int,
                ));
            }
        }
        d = d - 1;
    }
    assert(symbol_lines(indent@, inner@, sm, first, extra, 0) =~= Seq::<char>::empty());
    assert(out@ =~= start + symbol_lines(indent@, inner@, sm, first, extra, syms@.len() as int));
}

/// Writes a node's tail: its pending count and messages.
fn write_tail(out: &mut String, indent: &str, node: &Node)
    ensures
        final(out)@ == old(out)@ + node_tail(indent@, node_model(*node)),
{
    let ghost start = out@;
    if node.count > 0 {
        append_str(out, indent);
        write_decimal(out, node.count);
        append_str(out, " pending");
        append_str(out, "\n");
    }
    let ghost mid = out@;
    assert(mid =~= start + (if node.count > 0 {
        line(indent@, decimal(node.count as nat) + " pending"@)
    } else {
        Seq::empty()
    }));
    let ghost ms = strings_model(node.messages@);
    let mut i: usize = 0;
    while i < node.messages.len()
        invariant
            ms == strings_model(node.messages@),
            ms.len() == node.messages@.len(),
            i <= node.messages@.len(),
            out@ == mid + message_lines(indent@, ms, i as int),
        decreases node.messages@.len() - i,
    {
        append_str(out, indent);
        append_str(out, "● ");
        append_str(out, node.messages[i].as_str());
        append_str(out, "\n");
        assert(ms[i as int] == node.messages@[i as int]@);
        assert(out@ =~= mid + message_lines(indent@, ms, i + 1));
        i = i + 1;
    }
    assert(out@ =~= start + node_tail(indent@, node_model(*node)));
}

/// Writes a trace tree below `indent`.
fn write_tree(out: &mut String, node: &Node, indent: &str, table: &Vec<(usize, Vec<String>)>)
    ensures
        final(out)@ == old(out)@ + print_tree(indent@, node_model(*node), table_model(table@)),
    decreases node_model(*node),
{
    let ghost t = node_model(*node);
    let ghost ch = t.children;
    let ghost tab = table_model(table@);
    let ghost start = out@;
    proof {
        lemma_children_model(node.children@);
    }
    let n = node.children.len();
    let extra = n > 1;
    let mut rem: Vec<usize> = Vec::new();
    let mut q: usize = 0;
    while q < n
        invariant
            n == node.children@.len(),
            q <= n,
            rem@.len() == q,
            forall|j: int| 0 <= j < q ==> rem@[j] == j,
        decreases n - q,
    {
        rem.push(q);
        q = q + 1;
    }
    assert(rem@.map_values(|x: usize| x as int) =~= positions(n as int));
    let ghost ord = show_order(ch, positions(n as int));
    assert(ord.subrange(0, ord.len() as int) =~= ord);
    let mut k: usize = 0;
    while rem.len() > 0
        invariant
            n == node.children@.len(),
            n == ch.len(),
            t == node_model(*node),
            ch == t.children,
            tab == table_model(table@),
            forall|j: int| 0 <= j < n ==> #[trigger] ch[j] == (key_model(node.children@[j].0), node_model(node.children@[j].1)),
            extra == (n > 1),
            ord == show_order(ch, positions(n as int)),
            k <= ord.len(),
            k + rem@.len() == n,
            ord.subrange(k as int, ord.len() as int) == show_order(ch, rem@.map_values(|x: usize| x as int)),
            forall|j: int| 0 <= j < rem@.len() ==> rem@[j] < n,
            out@ == start + print_children(indent@, ch, ord, tab, k as int),
        decreases rem@.len(),
    {
        let ghost ri = rem@.map_values(|x: usize| x as int);
        let b = best_child(&node.children, &rem);
        proof {
            lemma_best_of(ch, ri, ri.len() as int);
        }
        assert(show_order(ch, ri) == seq![ri[b as int]] + show_order(ch, ri.remove(b as int)));
        assert(ri[b as int] == rem@[b as int] as int);
        let idx = rem.remove(b);
        proof {
            assert(rem@.map_values(|x: usize| x as int) =~= ri.remove(b as int));
            assert(ord.subrange(k as int, ord.len() as int).len() > 0);
            assert(ord[k as int] == ord.subrange(k as int, ord.len() as int)[0]);
            assert(ord[k as int] == idx);
            assert(ord.subrange(k + 1, ord.len() as int) =~= ord.subrange(k as int, ord.len() as int).drop_first());
        }
        let ghost before = out@;
        let first = k == 0;
        let mut inner = indent.to_owned();
        if extra {
            if first {
                append_str(&mut inner, "    ");
            } else {
                append_str(&mut inner, "┃   ");
            }
        }
        assert(ch[idx as int] == (key_model(node.children@[idx as int].0), node_model(node.children@[idx as int].1)));
        proof {
            assert(decreases_to!(t => t.children));
            assert(decreases_to!(t.children => t.children[idx as int]));
            assert(decreases_to!(t.children[idx as int] => t.children[idx as int].1));
            assert(decreases_to!(t => node_model(node.children@[idx as int].1)));
        }
        write_tree(out, &node.children[idx].1, inner.as_str(), table);
        match &node.children[idx].0 {
            NodeKey::Address(a) => {
                proof {
                    lemma_symbol_entry(tab, *a as int);
                }
                match entry_of(table, *a) {
                    Some(e) => {
                        assert(tab[e as int] == (table@[e as int].0 as int, strings_model(table@[e as int].1@)));
                        write_symbol_lines(out, indent, inner.as_str(), &table[e].1, first, extra);
                    },
                    None => {
                        let none: Vec<String> = Vec::new();
                        assert(strings_model(none@) =~= Seq::<Seq<char>>::empty());
                        write_symbol_lines(out, indent, inner.as_str(), &none, first, extra);
                    },
                }
            },
            NodeKey::Annotation(s) => {
                let mut one: Vec<String> = Vec::new();
                one.push(s.clone());
                assert(strings_model(one@) =~= seq![s@]);
                write_symbol_lines(out, indent, inner.as_str(), &one, first, extra);
            },
        }
        proof {
            assert(print_children(indent@, ch, ord, tab, k + 1) == print_children(indent@, ch, ord, tab, k as int)
                + print_child(indent@, ch[idx as int], k == 0, ch.len() > 1, tab));
            assert(out@ =~= start + print_children(indent@, ch, ord, tab, k + 1));
        }
        k = k + 1;
    }
    proof {
        assert(show_order(ch, rem@.map_values(|x: usize| x as int)) =~= Seq::<int>::empty()) by {
            assert(rem@.map_values(|x: usize| x as int).len() == 0);
        }
        assert(k == ord.len());
    }
    write_tail(out, indent, node);
    assert(out@ =~= start + print_tree(indent@, t, tab));
}

/// Prints trace trees as indented text, the nodes with the largest
/// subtrees first, each node below its subtree.
pub struct NodePrinter {
    indent: String,
    writer: String,
}

impl NodePrinter {
    pub closed spec fn written(&self) -> Seq<char> {
        self.writer@
    }

    pub closed spec fn indent_text(&self) -> Seq<char> {
        self.indent@
    }

    /// A printer that writes after `writer`, with no indent.
    pub fn new(writer: String) -> (r: Self)
        ensures
            r.written() == writer@,
            r.indent_text() == Seq::<char>::empty(),
    {
        NodePrinter { indent: String::new(), writer }
    }

    /// Prints the tree `node`, naming frames by the symbols in `table`.
    pub fn print(&mut self, node: &Node, table: &Vec<(usize, Vec<String>)>)
        ensures
            final(self).indent_text() == old(self).indent_text(),
            final(self).written() == old(self).written() + print_tree(
                old(self).indent_text(),
                node_model(*node),
                table_model(table@),
            ),
    {
        let indent = self.indent.clone();
        write_tree(&mut self.writer, node, indent.as_str(), table);
    }

    /// What was written.
    pub fn into_output(self) -> (r: String)
        ensures
            r@ == self.written(),
    {
        self.writer
    }
}

/// A piece of the way from the root of a trace to a pending task: an
/// annotation a task wrote, or a run of stack frames (their addresses,
/// innermost first).
pub enum PathPart {
    Annotation(String),
    Frames(Vec<usize>),
}

/// The keys that a piece adds, read from the root: the annotation behind a
/// bullet, or the frames from the outermost.
pub open spec fn part_keys(p: PathPart) -> Seq<KeyModel> {
    match p {
        PathPart::Annotation(s) => seq![KeyModel::Annotation("● "@ + s@)],
        PathPart::Frames(v) => Seq::new(v@.len(), |j: int| KeyModel::Address(v@[v@.len() - 1 - j] as int)),
    }
}

/// The keys of a whole way, its pieces from the root on.
pub open spec fn path_keys(parts: Seq<PathPart>) -> Seq<KeyModel>
    decreases parts.len(),
{
    if parts.len() == 0 {
        Seq::empty()
    } else {
        path_keys(parts.drop_last()) + part_keys(parts.last())
    }
}

/// The keys of a way from the root to a pending task.
pub fn keys_of(parts: &Vec<PathPart>) -> (r: Vec<NodeKey>)
    ensures
        r@.map_values(|k: NodeKey| key_model(k)) == path_keys(parts@),
{
    let mut out: Vec<NodeKey> = Vec::new();
    let mut i: usize = 0;
    assert(out@.map_values(|k: NodeKey| key_model(k)) =~= path_keys(parts@.take(0)));
    while i < parts.len()
        invariant
            i <= parts@.len(),
            out@.map_values(|k: NodeKey| key_model(k)) == path_keys(parts@.take(i as int)),
        decreases parts@.len() - i,
    {
        let ghost before = out@.map_values(|k: NodeKey| key_model(k));
        match &parts[i] {
            PathPart::Annotation(text) => {
                let mut key = "● ".to_owned();
                append_str(&mut key, text.as_str());
                out.push(NodeKey::Annotation(key));
            },
            PathPart::Frames(ips) => {
                let n = ips.len();
                let mut j: usize = n;
                while j > 0
                    invariant
                        j <= n,
                        n == ips@.len(),
                        out@.map_values(|k: NodeKey| key_model(k)) == before + Seq::new(
                            (n - j) as nat,
                            |q: int| KeyModel::Address(ips@[n - 1 - q] as int),
                        ),
                    decreases j,
                {
                    let ghost prevm = out@.map_values(|k: NodeKey| key_model(k));
                    out.push(NodeKey::Address(ips[j - 1]));
                    assert(out@.map_values(|k: NodeKey| key_model(k)) =~= prevm.push(KeyModel::Address(ips@[j - 1] as int)));
                    assert(out@.map_values(|k: NodeKey| key_model(k)) =~= before + Seq::new(
                        (n - (j - 1)) as nat,
                        |q: int| KeyModel::Address(ips@[n - 1 - q] as int),
                    ));
                    j = j - 1;
                }
            },
        }
        proof {
            assert(parts@.take(i + 1).drop_last() =~= parts@.take(i as int));
            assert(out@.map_values(|k: NodeKey| key_model(k)) =~= path_keys(parts@.take(i + 1)));
        }
        i = i + 1;
    }
    assert(parts@.take(parts@.len() as int) =~= parts@);
    out
}

impl Node {
    /// Counts one more task pending at the end of the way `parts`.
    pub fn insert(&mut self, parts: &Vec<PathPart>)
        requires
            count_at(node_model(*old(self)), path_keys(parts@)) < usize::MAX,
        ensures
            node_model(*final(self)) == inserted(node_model(*old(self)), path_keys(parts@)),
    {
        let keys = keys_of(parts);
        self.insert_count(keys);
    }
}

proof fn lemma_digit_char(d: nat)
    requires
        d < 10,
    ensures
        digit(d).len() == 1,
        digit(d)[0] as int == '0' as int + d,
{
    reveal_strlit("0");
    reveal_strlit("1");
    reveal_strlit("2");
    reveal_strlit("3");
    reveal_strlit("4");
    reveal_strlit("5");
    reveal_strlit("6");
    reveal_strlit("7");
    reveal_strlit("8");
    reveal_strlit("9");
}

/// A pending count is written as a base-ten numeral: every character is a
/// digit, the first is not a zero unless the count is zero, and the digits
/// read back, most significant first, to the count.
pub proof fn decimal_reads_back(n: nat)
    ensures
        decimal(n).len() >= 1,
        forall|i: int| 0 <= i < decimal(n).len() ==> '0' <= #[trigger] decimal(n)[i] <= '9',
        decimal(n)[0] == '0' ==> n == 0,
        numeral_value(decimal(n)) == n,
    decreases n,
{
    if n < 10 {
        lemma_digit_char(n);
        let s = decimal(n);
        assert(s.drop_last() =~= Seq::<char>::empty());
        assert(numeral_value(s.drop_last()) == 0);
        assert(numeral_value(s) == n);
    } else {
        decimal_reads_back(n / 10);
        lemma_digit_char(n % 10);
        let s = decimal(n);
        let h = decimal(n / 10);
        assert(s == h + digit(n % 10));
        assert(s.drop_last() =~= h);
        assert(s.last() == digit(n % 10)[0]);
        assert forall|i: int| 0 <= i < s.len() implies '0' <= #[trigger] s[i] <= '9' by {
            if i < h.len() {
                assert(s[i] == h[i]);
            }
        }
        assert(s[0] == h[0]);
        assert(n / 10 > 0);
        assert(n == (n / 10) * 10 + n % 10) by (nonlinear_arith);
        assert(numeral_value(s) == numeral_value(h) * 10 + (n % 10));
    }
}

} // verus!
