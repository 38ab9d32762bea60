//! Descriptions of what a matcher matches and why a value did or did not
//! match: nested, optionally bulleted or enumerated, lists of text.

use vstd::prelude::*;
use crate::internal::description_renderer::{
    block_depth, blocks_depth, fragment_views, list_depth, render_block, render_fragments,
    render_list, render_rest, render_room, spec_enumeration_padding, spec_prefix, Block,
    Decoration, List, INDENTATION_SIZE,
};
use crate::text::{chars_of, lemma_newline_from_at, lines, spaces, string_of};

verus! {

/// A structured description: a list of blocks of text, rendered with an
/// initial indentation.
pub struct Description {
    pub elements: List,
    pub initial_indentation: usize,
}

/// The blocks of `l` followed by `extra`.
pub open spec fn with_nested(blocks: Seq<Block>, inner: Seq<Description>) -> Seq<Block> {
    blocks + inner.map_values(|d: Description| Block::Nested(d.elements))
}

/// The nesting depth of a description's blocks (at least one).
pub open spec fn depth(d: Description) -> nat {
    list_depth(d.elements)
}

/// A description is shallow enough to be rendered.
pub open spec fn renderable(d: Description) -> bool {
    d.initial_indentation + render_room(depth(d)) <= usize::MAX
}

/// The rendered text of a description.
pub open spec fn rendered(d: Description) -> Seq<char> {
    render_list(d.elements, d.initial_indentation as int, Seq::empty())
}

/// What [`Description::to_string`] gives: the rendered text, or nothing for a
/// description nested too deeply to be rendered.
pub open spec fn shown(d: Description) -> Seq<char> {
    if renderable(d) {
        rendered(d)
    } else {
        Seq::empty()
    }
}

/// `d` is a single block of the lines of `s`, undecorated and not indented:
/// what a description made from one piece of text looks like.
pub open spec fn is_text(d: Description, s: Seq<char>) -> bool {
    &&& d.initial_indentation == 0
    &&& d.elements.1 == Decoration::Undecorated
    &&& d.elements.0@.len() == 1
    &&& d.elements.0@[0] matches Block::Literal(f) && fragment_views(f@) == lines(s)
}

/// `d` is one block of lines for each of `texts`, undecorated and not
/// indented.
pub open spec fn is_texts(d: Description, texts: Seq<Seq<char>>) -> bool {
    &&& d.initial_indentation == 0
    &&& d.elements.1 == Decoration::Undecorated
    &&& d.elements.0@.len() == texts.len()
    &&& forall|i: int|
        0 <= i < texts.len() ==> (#[trigger] d.elements.0@[i] matches Block::Literal(f)
            && fragment_views(f@) == lines(texts[i]))
}

/// `d` is one block of lines for each of `texts`, decorated with `deco`
/// and indented by `indentation`.
pub open spec fn is_listed(d: Description, texts: Seq<Seq<char>>, deco: Decoration, indentation: nat) -> bool {
    &&& d.initial_indentation == indentation
    &&& d.elements.1 == deco
    &&& d.elements.0@.len() == texts.len()
    &&& forall|i: int|
        0 <= i < texts.len() ==> (#[trigger] d.elements.0@[i] matches Block::Literal(f)
            && fragment_views(f@) == lines(texts[i]))
}

/// `s` holds no line break.
pub open spec fn one_line(s: Seq<char>) -> bool {
    forall|i: int| 0 <= i < s.len() ==> s[i] != '\n' && s[i] != '\r'
}

/// The lines of a piece of text without line breaks: the text itself, or
/// none when it is empty.
pub proof fn lemma_one_line(s: Seq<char>)
    requires
        one_line(s),
    ensures
        lines(s) == (if s.len() == 0 {
            Seq::<Seq<char>>::empty()
        } else {
            seq![s]
        }),
{
    if s.len() > 0 {
        lemma_newline_from_at(s, 0, s.len() as int);
        assert(s.subrange(0, s.len() as int) =~= s);
    }
}

/// A description made from one line of text renders as that text.
pub proof fn law_one_line_text_renders_as_itself(d: Description, s: Seq<char>)
    requires
        is_text(d, s),
        one_line(s),
    ensures
        rendered(d) == s,
{
    lemma_one_line(s);
    let l = d.elements;
    assert(spec_enumeration_padding(l.1, 1) == 0);
    assert(spec_prefix(l.1, 0, 0) =~= Seq::<char>::empty());
    assert(render_rest(l, 1, 0, 0) == Seq::<char>::empty());
    if let Block::Literal(f) = l.0@[0] {
        assert(fragment_views(f@).len() == f@.len());
        if s.len() > 0 {
            assert(f@[0].0@ == fragment_views(f@)[0]);
            assert(render_fragments(f@, 1, 0) == Seq::<char>::empty());
            assert(spaces(0) =~= Seq::<char>::empty());
            assert(render_block(l.0@[0], 0, Seq::empty()) =~= s);
        } else {
            assert(f@.len() == 0);
        }
    }
    assert(rendered(d) =~= s);
}

/// Collecting descriptions nests each of them in turn: `d.collect([a, b])`
/// has the blocks, decoration and indentation of `d.nested(a).nested(b)`,
/// and so displays as it, with two blocks more than `d`. `c` and `n` are
/// descriptions with what the two calls give.
pub proof fn law_collect_is_repeated_nesting(
    d: Description,
    a: Description,
    b: Description,
    c: Description,
    n: Description,
)
    requires
        c.elements.0@ == with_nested(d.elements.0@, seq![a, b]),
        c.elements.1 == d.elements.1,
        c.initial_indentation == d.initial_indentation,
        n.elements.0@ == d.elements.0@.push(Block::Nested(a.elements)).push(
            Block::Nested(b.elements),
        ),
        n.elements.1 == d.elements.1,
        n.initial_indentation == d.initial_indentation,
    ensures
        c.elements.0@ == n.elements.0@,
        shown(c) == shown(n),
        c.elements.0@.len() == d.elements.0@.len() + 2,
{
    assert(c.elements.0@ =~= n.elements.0@);
    lemma_same_blocks_same_text(c, n);
}

/// Descriptions with the same blocks, decoration and indentation have the
/// same depth and display the same.
pub proof fn lemma_same_blocks_same_text(c: Description, n: Description)
    requires
        c.elements.0@ == n.elements.0@,
        c.elements.1 == n.elements.1,
        c.initial_indentation == n.initial_indentation,
    ensures
        depth(c) == depth(n),
        rendered(c) == rendered(n),
        shown(c) == shown(n),
{
    lemma_blocks_depth_same(c.elements, n.elements, 0);
    lemma_render_rest_same(
        c.elements,
        n.elements,
        1,
        c.initial_indentation as int,
        spec_enumeration_padding(c.elements.1, c.elements.0@.len()),
    );
}

/// Lists with the same blocks and decoration render their later blocks
/// alike.
proof fn lemma_render_rest_same(l: List, m: List, i: int, indentation: int, padding: nat)
    requires
        l.0@ == m.0@,
        l.1 == m.1,
    ensures
        render_rest(l, i, indentation, padding) == render_rest(m, i, indentation, padding),
    decreases l.0@.len() + 1 - i,
{
    if 1 <= i < l.0@.len() {
        lemma_render_rest_same(l, m, i + 1, indentation, padding);
    }
}

/// Text and a nested description each add one block to a description.
pub open spec fn adds_block(d1: Description, d2: Description) -> bool {
    &&& d2.elements.0@.len() == d1.elements.0@.len() + 1
    &&& d2.elements.0@.drop_last() == d1.elements.0@
}

/// Indentation and decorations keep the blocks of a description.
pub open spec fn keeps_blocks(d1: Description, d2: Description) -> bool {
    d2.elements.0@ == d1.elements.0@
}

/// How many steps of `ds` add a block.
pub open spec fn added_blocks(ds: Seq<Description>) -> nat
    decreases ds.len(),
{
    if ds.len() <= 1 {
        0
    } else {
        added_blocks(ds.drop_last()) + if adds_block(ds[ds.len() - 2], ds[ds.len() - 1]) {
            1nat
        } else {
            0nat
        }
    }
}

/// The number of blocks counts the texts and nested descriptions: along
/// any run of calls from an empty description, each of which adds a block
/// ([`Description::text`], [`Description::nested`]) or keeps the blocks
/// ([`Description::indent`], [`Description::bullet_list`],
/// [`Description::enumerate`]), the length is the number of blocks added.
pub proof fn law_len_counts_added_blocks(ds: Seq<Description>)
    requires
        ds.len() >= 1,
        ds[0].elements.0@.len() == 0,
        forall|i: int|
            0 <= i < ds.len() - 1 ==> adds_block(#[trigger] ds[i], ds[i + 1]) || keeps_blocks(
                ds[i],
                ds[i + 1],
            ),
    ensures
        ds[ds.len() - 1].elements.0@.len() == added_blocks(ds),
    decreases ds.len(),
{
    if ds.len() > 1 {
        let shorter = ds.drop_last();
        assert forall|i: int| 0 <= i < shorter.len() - 1 implies adds_block(#[trigger] shorter[i], shorter[i + 1])
            || keeps_blocks(shorter[i], shorter[i + 1]) by {
            assert(shorter[i] == ds[i]);
            assert(shorter[i + 1] == ds[i + 1]);
        }
        law_len_counts_added_blocks(shorter);
        assert(shorter[shorter.len() - 1] == ds[ds.len() - 2]);
        assert(adds_block(ds[ds.len() - 2], ds[ds.len() - 1]) || keeps_blocks(ds[ds.len() - 2], ds[ds.len() - 1]));
    }
}

/// Appending a block to a list raises its depth to the block's.
pub proof fn lemma_depth_push(l: List, b: Block, m: List)
    requires
        m.0@ == l.0@.push(b),
        m.1 == l.1,
    ensures
        list_depth(m) == if list_depth(l) >= 1 + block_depth(b) {
            list_depth(l)
        } else {
            1 + block_depth(b)
        },
{
    lemma_blocks_depth_push(l, b, m, 0);
}

proof fn lemma_blocks_depth_push(l: List, b: Block, m: List, i: int)
    requires
        m.0@ == l.0@.push(b),
        0 <= i <= l.0@.len(),
    ensures
        blocks_depth(m, i) == if blocks_depth(l, i) >= block_depth(b) {
            blocks_depth(l, i)
        } else {
            block_depth(b)
        },
    decreases l.0@.len() - i,
{
    if i < l.0@.len() {
        lemma_blocks_depth_push(l, b, m, i + 1);
        assert(m.0@[i] == l.0@[i]);
    } else {
        assert(m.0@[i] == b);
        assert(blocks_depth(m, i + 1) == 0);
    }
}

/// A list with the same blocks has the same depth, whatever its decoration.
pub proof fn lemma_depth_decoration(l: List, m: List)
    requires
        m.0@ == l.0@,
    ensures
        list_depth(m) == list_depth(l),
{
    lemma_blocks_depth_same(l, m, 0);
}

proof fn lemma_blocks_depth_same(l: List, m: List, i: int)
    requires
        m.0@ == l.0@,
        0 <= i,
    ensures
        blocks_depth(m, i) == blocks_depth(l, i),
    decreases l.0@.len() - i,
{
    if i < l.0@.len() {
        lemma_blocks_depth_same(l, m, i + 1);
    }
}

impl Description {
    /// An empty description.
    pub fn new() -> (d: Description)
        ensures
            d.elements.0@ == Seq::<Block>::empty(),
            d.elements.1 == Decoration::Undecorated,
            d.initial_indentation == 0,
            depth(d) == 1,
    {
        let d = Description { elements: List::empty(), initial_indentation: 0 };
        assert(blocks_depth(d.elements, 0) == 0);
        d
    }

    /// The description with a block of the lines of `text` appended.
    pub fn text(self, text: &str) -> (d: Description)
        ensures
            d.elements.0@.len() == self.elements.0@.len() + 1,
            d.elements.0@.drop_last() == self.elements.0@,
            d.elements.0@.last() matches Block::Literal(f) && fragment_views(f@) == lines(text@),
            d.elements.1 == self.elements.1,
            d.initial_indentation == self.initial_indentation,
            depth(d) == depth(self),
    {
        let chars = chars_of(text);
        let mut elements = self.elements;
        let ghost before = elements;
        elements.push_literal(chars.as_slice());
        proof {
            assert(elements.0@ =~= before.0@.push(elements.0@.last()));
            lemma_depth_push(before, elements.0@.last(), elements);
        }
        Description { elements, initial_indentation: self.initial_indentation }
    }

    /// The description with `inner` appended as a nested block.
    pub fn nested(self, inner: Description) -> (d: Description)
        ensures
            d.elements.0@ == self.elements.0@.push(Block::Nested(inner.elements)),
            d.elements.1 == self.elements.1,
            d.initial_indentation == self.initial_indentation,
            depth(d) == if depth(self) >= 1 + depth(inner) {
                depth(self)
            } else {
                1 + depth(inner)
            },
    {
        let mut elements = self.elements;
        let ghost before = elements;
        let ghost inner_elements = inner.elements;
        elements.push_nested(inner.elements);
        proof {
            lemma_depth_push(before, Block::Nested(inner_elements), elements);
        }
        Description { elements, initial_indentation: self.initial_indentation }
    }

    /// The description with each of `inner` appended as a nested block.
    pub fn collect(self, inner: Vec<Description>) -> (d: Description)
        ensures
            d.elements.0@ == with_nested(self.elements.0@, inner@),
            d.elements.1 == self.elements.1,
            d.initial_indentation == self.initial_indentation,
    {
        let ghost blocks = self.elements.0@;
        let ghost all = inner@;
        let mut outer = self;
        let mut inner = inner;
        let ghost mut taken: int = 0;
        while inner.len() > 0
            invariant
                0 <= taken <= all.len(),
                inner@ == all.subrange(taken, all.len() as int),
                outer.elements.0@ == with_nested(blocks, all.take(taken)),
                outer.elements.1 == self.elements.1,
                outer.initial_indentation == self.initial_indentation,
            decreases inner@.len(),
        {
            let d = inner.remove(0);
            proof {
                assert(all[taken] == d);
                assert(all.take(taken + 1) =~= all.take(taken).push(d));
                assert(with_nested(blocks, all.take(taken + 1)) =~= with_nested(
                    blocks,
                    all.take(taken),
                ).push(Block::Nested(d.elements)));
            }
            outer = outer.nested(d);
            proof {
                taken = taken + 1;
                assert(inner@ =~= all.subrange(taken, all.len() as int));
            }
        }
        assert(all.take(all.len() as int) =~= all);
        outer
    }

    /// The description, indented when rendered.
    pub fn indent(self) -> (d: Description)
        ensures
            d.elements == self.elements,
            d.initial_indentation == INDENTATION_SIZE,
    {
        Description { elements: self.elements, initial_indentation: INDENTATION_SIZE }
    }

    /// The description with each block marked by a bullet.
    pub fn bullet_list(self) -> (d: Description)
        ensures
            d.elements.0@ == self.elements.0@,
            d.elements.1 == Decoration::Bullet,
            d.initial_indentation == self.initial_indentation,
            depth(d) == depth(self),
    {
        let ghost before = self.elements;
        let elements = self.elements.bullet_list();
        proof {
            lemma_depth_decoration(before, elements);
        }
        Description { elements, initial_indentation: self.initial_indentation }
    }

    /// The description with each block marked by its index.
    pub fn enumerate(self) -> (d: Description)
        ensures
            d.elements.0@ == self.elements.0@,
            d.elements.1 == Decoration::Enumerate,
            d.initial_indentation == self.initial_indentation,
            depth(d) == depth(self),
    {
        let ghost before = self.elements;
        let elements = self.elements.enumerate();
        proof {
            lemma_depth_decoration(before, elements);
        }
        Description { elements, initial_indentation: self.initial_indentation }
    }

    /// The number of blocks.
    pub fn len(&self) -> (n: usize)
        ensures
            n == self.elements.0@.len(),
    {
        self.elements.len()
    }

    /// Whether there are no blocks.
    pub fn is_empty(&self) -> (b: bool)
        ensures
            b == (self.elements.0@.len() == 0),
    {
        self.elements.is_empty()
    }

    /// The rendered text.
    pub fn render(&self) -> (r: Vec<char>)
        requires
            renderable(*self),
        ensures
            r@ == rendered(*self),
    {
        let mut out: Vec<char> = Vec::new();
        self.elements.render(&mut out, self.initial_indentation);
        out
    }

    /// The rendered text as characters; see [`Description::to_string`].
    pub fn to_chars(&self) -> (r: Vec<char>)
        ensures
            r@ == shown(*self),
    {
        if self.is_renderable() {
            self.render()
        } else {
            Vec::new()
        }
    }

    /// Whether the description is shallow enough to be rendered.
    pub fn is_renderable(&self) -> (b: bool)
        ensures
            b == renderable(*self),
    {
        let d = self.elements.depth();
        let limit = usize::MAX / 64;
        if d >= limit {
            proof {
                let x = list_depth(self.elements);
                assert(64 * x + 64 > usize::MAX) by (nonlinear_arith)
                    requires
                        x >= limit,
                        limit == usize::MAX / 64,
                ;
            }
            return false;
        }
        assert(64 * d + 64 <= usize::MAX) by (nonlinear_arith)
            requires
                d < limit,
                limit == usize::MAX / 64,
        ;
        let room = 64 * d + 64;
        self.initial_indentation <= usize::MAX - room
    }

    /// The rendered text. A description nested too deeply to be rendered
    /// (one that no memory could hold) gives the empty string.
    pub fn to_string(&self) -> (r: String)
        ensures
            r@ == shown(*self),
    {
        if self.is_renderable() {
            let out = self.render();
            string_of(out.as_slice())
        } else {
            String::new()
        }
    }

    /// A description of one block holding the lines of `text`.
    pub fn from_text(text: &str) -> (d: Description)
        ensures
            d.elements.0@.len() == 1,
            d.elements.0@[0] matches Block::Literal(f) && fragment_views(f@) == lines(text@),
            d.elements.1 == Decoration::Undecorated,
            d.initial_indentation == 0,
            depth(d) == 1,
    {
        let d = Description::new().text(text);
        assert(d.elements.0@[0] == d.elements.0@.last());
        d
    }

    /// A description of one block holding the lines of `text`.
    pub fn from_chars(text: &[char]) -> (d: Description)
        ensures
            is_text(d, text@),
    {
        let mut elements = List::empty();
        elements.push_literal(text);
        assert(elements.0@.len() == 1);
        assert(elements.0@[0] == elements.0@.last());
        Description { elements, initial_indentation: 0 }
    }

    /// A description of one block of lines for each of `texts`.
    pub fn from_texts(texts: Vec<String>) -> (d: Description)
        ensures
            d.elements.0@.len() == texts@.len(),
            forall|i: int|
                0 <= i < texts@.len() ==> (#[trigger] d.elements.0@[i] matches Block::Literal(f)
                    && fragment_views(f@) == lines(texts@[i]@)),
            d.elements.1 == Decoration::Undecorated,
            d.initial_indentation == 0,
            depth(d) == 1,
    {
        let mut d = Description::new();
        let mut i: usize = 0;
        while i < texts.len()
            invariant
                i <= texts@.len(),
                d.elements.0@.len() == i,
                forall|j: int|
                    0 <= j < i ==> (#[trigger] d.elements.0@[j] matches Block::Literal(f)
                        && fragment_views(f@) == lines(texts@[j]@)),
                d.elements.1 == Decoration::Undecorated,
                d.initial_indentation == 0,
                depth(d) == 1,
            decreases texts@.len() - i,
        {
            let ghost before = d.elements.0@;
            d = d.text(texts[i].as_str());
            assert forall|j: int| 0 <= j < i + 1 implies (#[trigger] d.elements.0@[j] matches Block::Literal(f)
                && fragment_views(f@) == lines(texts@[j]@)) by {
                if j < i {
                    assert(d.elements.0@[j] == d.elements.0@.drop_last()[j]);
                } else {
                    assert(d.elements.0@[j] == d.elements.0@.last());
                }
            }
            i = i + 1;
        }
        d
    }

    /// A description of one block of lines for each of `texts`.
    pub fn from_char_texts(texts: &[Vec<char>]) -> (d: Description)
        ensures
            is_texts(d, texts@.map_values(|t: Vec<char>| t@)),
    {
        let ghost views = texts@.map_values(|t: Vec<char>| t@);
        let mut elements = List::empty();
        let mut i: usize = 0;
        while i < texts.len()
            invariant
                i <= texts@.len(),
                views == texts@.map_values(|t: Vec<char>| t@),
                elements.1 == Decoration::Undecorated,
                elements.0@.len() == i,
                forall|j: int|
                    0 <= j < i ==> (#[trigger] elements.0@[j] matches Block::Literal(f)
                        && fragment_views(f@) == lines(views[j])),
            decreases texts@.len() - i,
        {
            let ghost before = elements.0@;
            elements.push_literal(texts[i].as_slice());
            assert forall|j: int| 0 <= j < i + 1 implies (#[trigger] elements.0@[j] matches Block::Literal(f)
                && fragment_views(f@) == lines(views[j])) by {
                if j < i {
                    assert(elements.0@[j] == elements.0@.drop_last()[j]);
                } else {
                    assert(elements.0@[j] == elements.0@.last());
                }
            }
            i = i + 1;
        }
        Description { elements, initial_indentation: 0 }
    }

    /// A description with each of `inner` as a nested block.
    pub fn from_descriptions(inner: Vec<Description>) -> (d: Description)
        ensures
            d.elements.0@ == with_nested(Seq::empty(), inner@),
            d.elements.1 == Decoration::Undecorated,
            d.initial_indentation == 0,
    {
        Description::new().collect(inner)
    }
}

} // verus!
