//! The writer's steps put together: a whole JSON value written the way the
//! encoder walks it comes out as one balanced piece of JSON text.

use vstd::prelude::*;
use crate::json_text::{line_break, quoted};
use crate::numbers::decimal;
use crate::writer::{before_member, closed, opened, JsonWriter, WriterView};

verus! {

/// A JSON value, as the encoder meets it.
pub enum Tree {
    Null,
    Bool(bool),
    Int(int),
    Str(Seq<char>),
    Array(Seq<Tree>),
    Object(Seq<(Seq<char>, Tree)>),
}

/// The options that decide how a value is laid out.
pub struct Layout {
    pub ascii_only: bool,
    pub indent: Option<u8>,
    pub item_separator: Seq<char>,
    pub key_separator: Seq<char>,
}

/// A writer's layout options.
pub open spec fn layout(v: WriterView) -> Layout {
    Layout {
        ascii_only: v.ensure_ascii,
        indent: v.indent,
        item_separator: v.item_separator,
        key_separator: v.key_separator,
    }
}

/// In pretty mode a line break and the indentation of `level`.
pub open spec fn break_at(o: Layout, level: nat) -> Seq<char> {
    match o.indent {
        Some(width) => line_break(level, width as nat),
        None => Seq::empty(),
    }
}

/// The level of a container's members.
pub open spec fn inner_level(o: Layout, level: nat) -> nat {
    if o.indent.is_some() {
        level + 1
    } else {
        level
    }
}

/// The text of a scalar.
pub open spec fn scalar_text(t: Tree, o: Layout) -> Seq<char> {
    match t {
        Tree::Null => seq!['n', 'u', 'l', 'l'],
        Tree::Bool(b) => if b {
            seq!['t', 'r', 'u', 'e']
        } else {
            seq!['f', 'a', 'l', 's', 'e']
        },
        Tree::Int(i) => decimal(i),
        Tree::Str(s) => quoted(s, o.ascii_only),
        _ => Seq::empty(),
    }
}

/// The JSON text of a value at nesting `level`: scalars as themselves; an
/// empty container as its two brackets; a non-empty one as its opening
/// bracket, its members each preceded by the item separator (but the first)
/// and a line break at the members' level, then a line break at `level`
/// and its closing bracket. An object member is its key, the key separator
/// and its value.
pub open spec fn value_text(t: Tree, o: Layout, level: nat) -> Seq<char>
    decreases t, 0int,
{
    match t {
        Tree::Array(items) => if items.len() == 0 {
            seq!['[', ']']
        } else {
            seq!['['] + items_text(items, o, inner_level(o, level), 0) + break_at(o, level) + seq![']']
        },
        Tree::Object(members) => if members.len() == 0 {
            seq!['{', '}']
        } else {
            seq!['{'] + members_text(members, o, inner_level(o, level), 0) + break_at(o, level) + seq!['}']
        },
        _ => scalar_text(t, o),
    }
}

/// The text of the elements of an array from position `i` on.
pub open spec fn items_text(items: Seq<Tree>, o: Layout, level: nat, i: int) -> Seq<char>
    decreases items, items.len() - i,
{
    if i < 0 || i >= items.len() {
        Seq::empty()
    } else {
        (if i > 0 { o.item_separator } else { Seq::empty() }) + break_at(o, level) + value_text(items[i], o, level)
            + items_text(items, o, level, i + 1)
    }
}

/// The text of the members of an object from position `i` on.
pub open spec fn members_text(members: Seq<(Seq<char>, Tree)>, o: Layout, level: nat, i: int) -> Seq<char>
    decreases members, members.len() - i,
{
    if i < 0 || i >= members.len() {
        Seq::empty()
    } else {
        (if i > 0 { o.item_separator } else { Seq::empty() }) + break_at(o, level) + quoted(members[i].0, o.ascii_only)
            + o.key_separator + value_text(members[i].1, o, level) + members_text(members, o, level, i + 1)
    }
}

/// The writer after the encoder writes `t` with it: a scalar by one write,
/// a container by opening it, writing each member after its separator, and
/// closing it.
pub open spec fn walk(v: WriterView, t: Tree) -> WriterView
    decreases t, 0int,
{
    match t {
        Tree::Array(items) => closed(walk_items(opened(v, '['), items, 0), ']'),
        Tree::Object(members) => closed(walk_members(opened(v, '{'), members, 0), '}'),
        _ => v.append(scalar_text(t, layout(v))),
    }
}

/// The writer after the encoder writes the elements from position `i` on.
pub open spec fn walk_items(v: WriterView, items: Seq<Tree>, i: int) -> WriterView
    decreases items, items.len() - i,
{
    if i < 0 || i >= items.len() {
        v
    } else {
        walk_items(walk(before_member(v, i), items[i]), items, i + 1)
    }
}

/// The writer after the encoder writes the members from position `i` on.
pub open spec fn walk_members(v: WriterView, members: Seq<(Seq<char>, Tree)>, i: int) -> WriterView
    decreases members, members.len() - i,
{
    if i < 0 || i >= members.len() {
        v
    } else {
        let keyed = before_member(v, i).append(quoted(members[i].0, v.ensure_ascii));
        walk_members(walk(keyed.append(keyed.key_separator), members[i].1), members, i + 1)
    }
}

/// Writing a whole value the way the encoder walks it appends exactly the
/// value's JSON text, and leaves the writer at the level and with the
/// options it had: every container it opens, it closes. Afterwards the
/// innermost container has content.
pub proof fn lemma_walk(v: WriterView, t: Tree)
    ensures
        walk(v, t).text == v.text + value_text(t, layout(v), v.level),
        walk(v, t).level == v.level,
        walk(v, t).same_options(v),
        !walk(v, t).empty,
    decreases t, 0int,
{
    match t {
        Tree::Array(items) => lemma_walk_array(v, items),
        Tree::Object(members) => lemma_walk_object(v, members),
        _ => {},
    }
}

proof fn lemma_walk_array(v: WriterView, items: Seq<Tree>)
    ensures
        walk(v, Tree::Array(items)).text == v.text + value_text(Tree::Array(items), layout(v), v.level),
        walk(v, Tree::Array(items)).level == v.level,
        walk(v, Tree::Array(items)).same_options(v),
        !walk(v, Tree::Array(items)).empty,
    decreases items, items.len() + 1,
{
    let o = layout(v);
    let opened_v = opened(v, '[');
    lemma_walk_items(opened_v, items, 0);
    let w = walk_items(opened_v, items, 0);
    assert(layout(opened_v) == o);
    assert(layout(w) == o);
    assert(walk(v, Tree::Array(items)).text =~= v.text + value_text(Tree::Array(items), o, v.level));
}

proof fn lemma_walk_object(v: WriterView, members: Seq<(Seq<char>, Tree)>)
    ensures
        walk(v, Tree::Object(members)).text == v.text + value_text(Tree::Object(members), layout(v), v.level),
        walk(v, Tree::Object(members)).level == v.level,
        walk(v, Tree::Object(members)).same_options(v),
        !walk(v, Tree::Object(members)).empty,
    decreases members, members.len() + 1,
{
    let o = layout(v);
    let opened_v = opened(v, '{');
    lemma_walk_members(opened_v, members, 0);
    let w = walk_members(opened_v, members, 0);
    assert(layout(opened_v) == o);
    assert(layout(w) == o);
    assert(walk(v, Tree::Object(members)).text =~= v.text + value_text(Tree::Object(members), o, v.level));
}

/// Writing the elements of an array from position `i` on appends their
/// text; the container is left non-empty once any element is written.
pub proof fn lemma_walk_items(v: WriterView, items: Seq<Tree>, i: int)
    requires
        0 <= i <= items.len(),
    ensures
        walk_items(v, items, i).text == v.text + items_text(items, layout(v), v.level, i),
        walk_items(v, items, i).level == v.level,
        walk_items(v, items, i).same_options(v),
        walk_items(v, items, i).empty == (v.empty && i >= items.len()),
    decreases items, items.len() - i,
{
    if i < items.len() {
        let b = before_member(v, i);
        lemma_walk(b, items[i]);
        let w = walk(b, items[i]);
        assert(layout(w) == layout(v));
        lemma_walk_items(w, items, i + 1);
        assert(walk_items(v, items, i).text =~= v.text + items_text(items, layout(v), v.level, i));
    }
}

/// Writing the members of an object from position `i` on appends their
/// text; the container is left non-empty once any member is written.
pub proof fn lemma_walk_members(v: WriterView, members: Seq<(Seq<char>, Tree)>, i: int)
    requires
        0 <= i <= members.len(),
    ensures
        walk_members(v, members, i).text == v.text + members_text(members, layout(v), v.level, i),
        walk_members(v, members, i).level == v.level,
        walk_members(v, members, i).same_options(v),
        walk_members(v, members, i).empty == (v.empty && i >= members.len()),
    decreases members, members.len() - i,
{
    if i < members.len() {
        let keyed = before_member(v, i).append(quoted(members[i].0, v.ensure_ascii));
        let k = keyed.append(keyed.key_separator);
        lemma_walk(k, members[i].1);
        let w = walk(k, members[i].1);
        assert(layout(w) == layout(v));
        lemma_walk_members(w, members, i + 1);
        assert(walk_members(v, members, i).text =~= v.text + members_text(members, layout(v), v.level, i));
    }
}

/// A JSON value held in memory, to be written as a whole.
pub enum Document {
    Null,
    Bool(bool),
    Int(i64),
    Str(String),
    Array(Vec<Document>),
    Object(Vec<(String, Document)>),
}

/// The value a document holds.
pub open spec fn tree_of(d: Document) -> Tree
    decreases d,
{
    match d {
        Document::Null => Tree::Null,
        Document::Bool(b) => Tree::Bool(b),
        Document::Int(i) => Tree::Int(i as int),
        Document::Str(s) => Tree::Str(s@),
        Document::Array(items) => Tree::Array(Seq::new(items@.len(), |i: int| if 0 <= i < items@.len() {
            tree_of(items@[i])
        } else {
            Tree::Null
        })),
        Document::Object(members) => Tree::Object(
            Seq::new(members@.len(), |i: int| if 0 <= i < members@.len() {
                (members@[i].0@, tree_of(members@[i].1))
            } else {
                (Seq::empty(), Tree::Null)
            }),
        ),
    }
}

/// How deep containers nest in a value: 0 for a scalar.
pub open spec fn height(t: Tree) -> nat
    decreases t, 0int,
{
    match t {
        Tree::Array(items) => 1 + items_height(items, 0),
        Tree::Object(members) => 1 + members_height(members, 0),
        _ => 0,
    }
}

/// The greatest height among the elements from position `i` on.
pub open spec fn items_height(items: Seq<Tree>, i: int) -> nat
    decreases items, items.len() - i,
{
    if i < 0 || i >= items.len() {
        0
    } else {
        let h = height(items[i]);
        let rest = items_height(items, i + 1);
        if h > rest { h } else { rest }
    }
}

/// The greatest height among the members' values from position `i` on.
pub open spec fn members_height(members: Seq<(Seq<char>, Tree)>, i: int) -> nat
    decreases members, members.len() - i,
{
    if i < 0 || i >= members.len() {
        0
    } else {
        let h = height(members[i].1);
        let rest = members_height(members, i + 1);
        if h > rest { h } else { rest }
    }
}

proof fn lemma_items_height(items: Seq<Tree>, i: int, k: int)
    requires
        0 <= i <= k < items.len(),
    ensures
        height(items[k]) <= items_height(items, i),
    decreases k - i,
{
    if i < k {
        lemma_items_height(items, i + 1, k);
    }
}

proof fn lemma_members_height(members: Seq<(Seq<char>, Tree)>, i: int, k: int)
    requires
        0 <= i <= k < members.len(),
    ensures
        height(members[k].1) <= members_height(members, i),
    decreases k - i,
{
    if i < k {
        lemma_members_height(members, i + 1, k);
    }
}

/// Writes a whole document with the writer, member by member, as the
/// encoder does: what it appends is exactly the document's JSON text, and
/// the writer is left at its level with its options.
pub fn write_document(w: &mut JsonWriter, d: &Document)
    requires
        old(w)@.indent.is_some() ==> old(w)@.level + height(tree_of(*d)) < usize::MAX,
    ensures
        final(w)@ == walk(old(w)@, tree_of(*d)),
        final(w)@.text == old(w)@.text + value_text(tree_of(*d), layout(old(w)@), old(w)@.level),
        final(w)@.level == old(w)@.level,
        final(w)@.same_options(old(w)@),
    decreases d,
{
    proof {
        lemma_walk(old(w)@, tree_of(*d));
    }
    match d {
        Document::Null => w.write_none(),
        Document::Bool(b) => w.write_bool(*b),
        Document::Int(i) => w.write_i64(*i),
        Document::Str(s) => w.write_string(s.as_str()),
        Document::Array(items) => {
            let ghost start = w@;
            let ghost trees = match tree_of(*d) {
                Tree::Array(ts) => ts,
                _ => Seq::empty(),
            };
            assert(trees.len() == items@.len());
            w.write_array_open();
            let ghost first = w@;
            let mut i: usize = 0;
            while i < items.len()
                invariant
                    0 <= i <= items@.len() == trees.len(),
                    *d == Document::Array(*items),
                    forall|j: int| 0 <= j < items@.len() ==> #[trigger] trees[j] == tree_of(items@[j]),
                    first == opened(start, '['),
                    start.indent.is_some() ==> start.level + height(Tree::Array(trees)) < usize::MAX,
                    walk_items(w@, trees, i as int) == walk_items(first, trees, 0),
                    w@.level == first.level,
                    w@.same_options(first),
                decreases items@.len() - i,
            {
                let ghost before = w@;
                w.write_member_separator(i);
                proof {
                    lemma_items_height(trees, 0, i as int);
                    let ghost dd = *d;
                    assert(dd->Array_0 == *items);
                    assert(decreases_to!(dd => dd->Array_0));
                    assert(decreases_to!(*items => items@));
                    assert(decreases_to!(items@ => items@[i as int]));
                    assert(decreases_to!(*d => items@[i as int]));
                }
                write_document(w, &items[i]);
                proof {
                    lemma_walk(before_member(before, i as int), trees[i as int]);
                }
                i = i + 1;
            }
            w.write_array_close();
        },
        Document::Object(members) => {
            let ghost start = w@;
            let ghost trees = match tree_of(*d) {
                Tree::Object(ts) => ts,
                _ => Seq::empty(),
            };
            assert(trees.len() == members@.len());
            w.write_object_open();
            let ghost first = w@;
            let mut i: usize = 0;
            while i < members.len()
                invariant
                    0 <= i <= members@.len() == trees.len(),
                    *d == Document::Object(*members),
                    forall|j: int| 0 <= j < members@.len() ==> #[trigger] trees[j] == (members@[j].0@, tree_of(members@[j].1)),
                    first == opened(start, '{'),
                    start.indent.is_some() ==> start.level + height(Tree::Object(trees)) < usize::MAX,
                    walk_members(w@, trees, i as int) == walk_members(first, trees, 0),
                    w@.level == first.level,
                    w@.same_options(first),
                decreases members@.len() - i,
            {
                let ghost before = w@;
                w.write_member_separator(i);
                w.write_string(members[i].0.as_str());
                w.write_colon();
                let ghost keyed = w@;
                proof {
                    lemma_members_height(trees, 0, i as int);
                    let ghost dd = *d;
                    assert(dd->Object_0 == *members);
                    assert(decreases_to!(dd => dd->Object_0));
                    assert(decreases_to!(*members => members@));
                    assert(decreases_to!(members@ => members@[i as int]));
                    assert(decreases_to!(members@[i as int] => members@[i as int].1));
                    assert(decreases_to!(*d => members@[i as int].1));
                }
                write_document(w, &members[i].1);
                proof {
                    lemma_walk(keyed, trees[i as int].1);
                }
                i = i + 1;
            }
            w.write_object_close();
        },
    }
}

} // verus!
