//! Rendering of nested, optionally bulleted or enumerated, lists of text.

use vstd::prelude::*;
use crate::text::{
    decimal, lines, push_all, push_decimal, push_spaces, spaces, split_lines, views_of,
};

verus! {

/// How far a nested list is indented relative to its parent.
pub const INDENTATION_SIZE: usize = 2;

/// One line of text.
pub struct Fragment(pub Vec<char>);

/// A block of a list: either lines of text or a nested list.
pub enum Block {
    /// Lines of text.
    Literal(Vec<Fragment>),
    /// A nested list, rendered indented.
    Nested(List),
}

/// How the blocks of a list are marked.
#[derive(Clone, Copy)]
pub enum Decoration {
    /// No marker.
    Undecorated,
    /// Each block starts with `* `.
    Bullet,
    /// Each block starts with its index and `. `, the indices right-aligned.
    Enumerate,
}

/// A list of blocks with a decoration.
pub struct List(pub Vec<Block>, pub Decoration);

/// The marker of the block at `index` of a list decorated with `d`, when the
/// indices are padded to `padding` characters.
pub open spec fn spec_prefix(d: Decoration, index: nat, padding: nat) -> Seq<char> {
    match d {
        Decoration::Undecorated => Seq::empty(),
        Decoration::Bullet => seq!['*', ' '],
        Decoration::Enumerate => {
            let digits = decimal(index);
            let pad = if digits.len() < padding {
                (padding - digits.len()) as nat
            } else {
                0
            };
            spaces(pad) + digits + seq!['.', ' ']
        },
    }
}

/// The width of the widest index of an enumerated list of `len` blocks.
pub open spec fn spec_enumeration_padding(d: Decoration, len: nat) -> nat {
    match d {
        Decoration::Enumerate => if len > 1 {
            decimal((len - 1) as nat).len()
        } else {
            1
        },
        _ => 0,
    }
}

/// `a - b`, or zero when `b` exceeds `a`.
pub open spec fn saturating_sub(a: int, b: int) -> int {
    if a > b {
        a - b
    } else {
        0
    }
}

/// The text of a list, its first block after `prefix`, every line indented
/// by `indentation` spaces.
pub open spec fn render_list(l: List, indentation: int, prefix: Seq<char>) -> Seq<char>
    decreases l, l.0@.len() + 2,
{
    if l.0@.len() == 0 {
        Seq::empty()
    } else {
        let padding = spec_enumeration_padding(l.1, l.0@.len());
        render_block(l.0@[0], indentation, prefix + spec_prefix(l.1, 0, padding)) + render_rest(
            l,
            1,
            indentation + prefix.len(),
            padding,
        )
    }
}

/// The text of the blocks of `l` from index `i` on, each on a new line.
pub open spec fn render_rest(l: List, i: int, indentation: int, padding: nat) -> Seq<char>
    decreases l, l.0@.len() + 1 - i,
{
    if i < 1 || i >= l.0@.len() {
        Seq::empty()
    } else {
        seq!['\n'] + render_block(l.0@[i], indentation, spec_prefix(l.1, i as nat, padding))
            + render_rest(l, i + 1, indentation, padding)
    }
}

/// The text of a block.
pub open spec fn render_block(b: Block, indentation: int, prefix: Seq<char>) -> Seq<char>
    decreases b, 0int,
{
    match b {
        Block::Literal(fragments) => if fragments@.len() == 0 {
            Seq::empty()
        } else {
            spaces(indentation as nat) + prefix + fragments@[0].0@ + render_fragments(
                fragments@,
                1,
                indentation + prefix.len(),
            )
        },
        Block::Nested(inner) => render_list(
            inner,
            indentation + saturating_sub(INDENTATION_SIZE as int, prefix.len() as int),
            prefix,
        ),
    }
}

/// The lines of a literal block from index `i` on, each on a new line
/// indented by `indentation` spaces.
pub open spec fn render_fragments(f: Seq<Fragment>, i: int, indentation: int) -> Seq<char>
    decreases f.len() - i,
{
    if i < 0 || i >= f.len() {
        Seq::empty()
    } else {
        seq!['\n'] + spaces(indentation as nat) + f[i].0@ + render_fragments(f, i + 1, indentation)
    }
}

/// How deeply lists nest inside `l` (at least one).
pub open spec fn list_depth(l: List) -> nat
    decreases l, l.0@.len() + 2,
{
    1 + blocks_depth(l, 0)
}

/// How deeply lists nest inside the blocks of `l` from index `i` on.
pub open spec fn blocks_depth(l: List, i: int) -> nat
    decreases l, l.0@.len() + 1 - i,
{
    if i < 0 || i >= l.0@.len() {
        0
    } else {
        let here = block_depth(l.0@[i]);
        let rest = blocks_depth(l, i + 1);
        if here > rest {
            here
        } else {
            rest
        }
    }
}

/// How deeply lists nest inside a block.
pub open spec fn block_depth(b: Block) -> nat
    decreases b, 0int,
{
    match b {
        Block::Literal(_) => 0,
        Block::Nested(inner) => list_depth(inner),
    }
}

/// The room that rendering a list at this nesting depth needs.
pub open spec fn render_room(depth: nat) -> int {
    64 * depth + 64int
}

/// The room that rendering a block at this nesting depth needs.
pub open spec fn block_room(depth: nat) -> int {
    64 * depth + 66int
}

/// The texts of the fragments.
pub open spec fn fragment_views(f: Seq<Fragment>) -> Seq<Seq<char>> {
    f.map_values(|x: Fragment| x.0@)
}

/// No block from index `i` on is nested deeper than the list from `i` on.
pub proof fn lemma_blocks_depth_bound(l: List, i: int, j: int)
    requires
        0 <= i <= j < l.0@.len(),
    ensures
        block_depth(l.0@[j]) <= blocks_depth(l, i),
    decreases j - i,
{
    if i < j {
        lemma_blocks_depth_bound(l, i + 1, j);
    }
}

/// A `usize` has at most 20 decimal digits.
pub proof fn lemma_decimal_len(n: nat)
    requires
        n <= usize::MAX,
    ensures
        decimal(n).len() <= 20,
{
    lemma_pow10_20();
    lemma_decimal_len_below(n, 20);
}

proof fn lemma_decimal_len_below(n: nat, k: nat)
    requires
        k >= 1,
        n < pow10(k),
    ensures
        decimal(n).len() <= k,
    decreases k,
{
    if n >= 10 {
        assert(n / 10 < pow10((k - 1) as nat)) by {
            assert(pow10(k) == 10 * pow10((k - 1) as nat));
        }
        if k == 1 {
            assert(pow10(1) == 10) by {
                assert(pow10(0) == 1);
            }
        } else {
            lemma_decimal_len_below(n / 10, (k - 1) as nat);
        }
    }
}

spec fn pow10(k: nat) -> nat
    decreases k,
{
    if k == 0 {
        1
    } else {
        10 * pow10((k - 1) as nat)
    }
}

proof fn lemma_pow10_20()
    ensures
        pow10(20) > usize::MAX,
{
    reveal_with_fuel(pow10, 21);
    assert(pow10(20) == 100000000000000000000nat);
}

impl Fragment {
    /// Writes the fragment's text.
    pub fn render(&self, out: &mut Vec<char>)
        ensures
            final(out)@ == old(out)@ + self.0@,
    {
        push_all(out, self.0.as_slice());
    }
}

impl Block {
    /// A block holding the nested list `inner`.
    pub fn nested(inner: List) -> (b: Block)
        ensures
            b == Block::Nested(inner),
    {
        Block::Nested(inner)
    }

    /// A block holding the lines of `text`.
    pub fn from_text(text: &str) -> (b: Block)
        ensures
            b matches Block::Literal(f) && fragment_views(f@) == lines(text@),
    {
        let chars = crate::text::chars_of(text);
        Block::from_chars(chars.as_slice())
    }

    /// A block holding the lines of `text`.
    pub fn from_chars(text: &[char]) -> (b: Block)
        ensures
            b matches Block::Literal(f) && fragment_views(f@) == lines(text@),
    {
        let ls = split_lines(text);
        let mut fragments: Vec<Fragment> = Vec::new();
        let mut i: usize = 0;
        while i < ls.len()
            invariant
                i <= ls@.len(),
                fragment_views(fragments@) == views_of(ls@).take(i as int),
            decreases ls@.len() - i,
        {
            let line = crate::text::copy_range(ls[i].as_slice(), 0, ls[i].len());
            assert(line@ =~= ls@[i as int]@);
            let ghost before = fragment_views(fragments@);
            fragments.push(Fragment(line));
            assert(fragment_views(fragments@) =~= before.push(line@));
            assert(views_of(ls@).take(i + 1) =~= views_of(ls@).take(i as int).push(views_of(ls@)[i as int]));
            i = i + 1;
        }
        assert(views_of(ls@).take(ls@.len() as int) =~= views_of(ls@));
        Block::Literal(fragments)
    }

    /// How deeply lists nest inside this block, capped at `usize::MAX`.
    pub fn depth(&self) -> (r: usize)
        ensures
            r == (if block_depth(*self) < usize::MAX {
                block_depth(*self)
            } else {
                usize::MAX as nat
            }),
        decreases self, 0int,
    {
        match self {
            Block::Literal(_) => 0,
            Block::Nested(inner) => inner.depth(),
        }
    }

    /// Writes the block, each line indented by `indentation` spaces and the
    /// first line after `prefix`.
    pub fn render(&self, out: &mut Vec<char>, indentation: usize, prefix: &[char])
        requires
            indentation + prefix@.len() + block_room(block_depth(*self)) <= usize::MAX,
        ensures
            final(out)@ == old(out)@ + render_block(*self, indentation as int, prefix@),
        decreases self, 0int,
    {
        match self {
            Block::Literal(fragments) => {
                if fragments.len() == 0 {
                    return;
                }
                push_spaces(out, indentation);
                push_all(out, prefix);
                fragments[0].render(out);
                let block_indentation = indentation + prefix.len();
                let ghost start = out@;
                let mut i: usize = 1;
                while i < fragments.len()
                    invariant
                        1 <= i <= fragments@.len(),
                        out@ + render_fragments(fragments@, i as int, block_indentation as int)
                            == start + render_fragments(fragments@, 1, block_indentation as int),
                    decreases fragments@.len() - i,
                {
                    let ghost here = out@;
                    out.push('\n');
                    push_spaces(out, block_indentation);
                    fragments[i].render(out);
                    proof {
                        assert(out@ == here + seq!['\n'] + spaces(block_indentation as nat)
                            + fragments@[i as int].0@);
                        assert(out@ + render_fragments(fragments@, i + 1, block_indentation as int)
                            =~= here + render_fragments(fragments@, i as int, block_indentation as int));
                    }
                    i = i + 1;
                }
            },
            Block::Nested(inner) => {
                let extra = if INDENTATION_SIZE > prefix.len() {
                    INDENTATION_SIZE - prefix.len()
                } else {
                    0
                };
                inner.render_with_prefix(out, indentation + extra, prefix);
            },
        }
    }
}

impl List {
    /// An undecorated list of `blocks`.
    pub fn from_blocks(blocks: Vec<Block>) -> (l: List)
        ensures
            l.0@ == blocks@,
            l.1 == Decoration::Undecorated,
    {
        List(blocks, Decoration::Undecorated)
    }

    /// An empty, undecorated list.
    pub fn empty() -> (l: List)
        ensures
            l.0@ == Seq::<Block>::empty(),
            l.1 == Decoration::Undecorated,
    {
        List(Vec::new(), Decoration::Undecorated)
    }

    /// Writes the list, every line indented by `indentation` spaces.
    pub fn render(&self, out: &mut Vec<char>, indentation: usize)
        requires
            indentation + render_room(list_depth(*self)) <= usize::MAX,
        ensures
            final(out)@ == old(out)@ + render_list(*self, indentation as int, Seq::empty()),
    {
        let empty: Vec<char> = Vec::new();
        self.render_with_prefix(out, indentation, empty.as_slice());
    }

    /// Appends a block of the lines of `literal`.
    pub fn push_literal(&mut self, literal: &[char])
        ensures
            final(self).1 == old(self).1,
            final(self).0@.len() == old(self).0@.len() + 1,
            final(self).0@.drop_last() == old(self).0@,
            final(self).0@.last() matches Block::Literal(f) && fragment_views(f@) == lines(
                literal@,
            ),
    {
        self.0.push(Block::from_chars(literal));
    }

    /// Appends a nested list.
    pub fn push_nested(&mut self, inner: List)
        ensures
            final(self).1 == old(self).1,
            final(self).0@ == old(self).0@.push(Block::Nested(inner)),
    {
        self.0.push(Block::Nested(inner));
    }

    /// The same blocks, each marked with a bullet.
    pub fn bullet_list(self) -> (l: List)
        ensures
            l.0@ == self.0@,
            l.1 == Decoration::Bullet,
    {
        List(self.0, Decoration::Bullet)
    }

    /// The same blocks, each marked with its index.
    pub fn enumerate(self) -> (l: List)
        ensures
            l.0@ == self.0@,
            l.1 == Decoration::Enumerate,
    {
        List(self.0, Decoration::Enumerate)
    }

    /// The number of blocks.
    pub fn len(&self) -> (n: usize)
        ensures
            n == self.0@.len(),
    {
        self.0.len()
    }

    /// Whether there are no blocks.
    pub fn is_empty(&self) -> (b: bool)
        ensures
            b == (self.0@.len() == 0),
    {
        self.0.len() == 0
    }

    /// How deeply lists nest inside this list, capped at `usize::MAX`.
    pub fn depth(&self) -> (r: usize)
        ensures
            r == (if list_depth(*self) < usize::MAX {
                list_depth(*self)
            } else {
                usize::MAX as nat
            }),
        decreases self, self.0@.len() + 2,
    {
        let mut acc: usize = 0;
        let mut i: usize = self.0.len();
        while i > 0
            invariant
                i <= self.0@.len(),
                acc == (if blocks_depth(*self, i as int) < usize::MAX {
                    blocks_depth(*self, i as int)
                } else {
                    usize::MAX as nat
                }),
            decreases i,
        {
            i = i - 1;
            let here = self.0[i].depth();
            if here > acc {
                acc = here;
            }
        }
        if acc < usize::MAX {
            acc + 1
        } else {
            acc
        }
    }

    /// Writes the list with its first block after `prefix`.
    pub fn render_with_prefix(&self, out: &mut Vec<char>, indentation: usize, prefix: &[char])
        requires
            indentation + prefix@.len() + render_room(list_depth(*self)) <= usize::MAX,
        ensures
            final(out)@ == old(out)@ + render_list(*self, indentation as int, prefix@),
        decreases self, self.0@.len() + 2,
    {
        if self.0.len() == 0 {
            return;
        }
        let enumeration_padding = self.enumeration_padding();
        let first = self.full_prefix(0, enumeration_padding, prefix);
        proof {
            lemma_blocks_depth_bound(*self, 0, 0);
            lemma_prefix_len(self.1, 0, enumeration_padding as nat);
        }
        self.0[0].render(out, indentation, first.as_slice());
        let rest_indentation = indentation + prefix.len();
        let ghost start = out@;
        let mut index: usize = 1;
        while index < self.0.len()
            invariant
                1 <= index <= self.0@.len(),
                enumeration_padding == spec_enumeration_padding(self.1, self.0@.len()),
                enumeration_padding <= 20,
                rest_indentation == indentation + prefix@.len(),
                indentation + prefix@.len() + render_room(list_depth(*self)) <= usize::MAX,
                out@ + render_rest(*self, index as int, rest_indentation as int, enumeration_padding as nat)
                    == start + render_rest(*self, 1, rest_indentation as int, enumeration_padding as nat),
            decreases self.0@.len() - index,
        {
            let ghost here = out@;
            out.push('\n');
            let p = self.prefix(index, enumeration_padding);
            proof {
                lemma_blocks_depth_bound(*self, 0, index as int);
                lemma_prefix_len(self.1, index as nat, enumeration_padding as nat);
            }
            self.0[index].render(out, rest_indentation, p.as_slice());
            proof {
                assert(out@ + render_rest(*self, index + 1, rest_indentation as int, enumeration_padding as nat)
                    =~= here + render_rest(*self, index as int, rest_indentation as int, enumeration_padding as nat));
            }
            index = index + 1;
        }
    }

    /// The marker of the first block after `prior_prefix`.
    pub fn full_prefix(&self, index: usize, enumeration_padding: usize, prior_prefix: &[char]) -> (r: Vec<char>)
        requires
            enumeration_padding <= 20,
        ensures
            r@ == prior_prefix@ + spec_prefix(self.1, index as nat, enumeration_padding as nat),
    {
        let mut r: Vec<char> = Vec::new();
        push_all(&mut r, prior_prefix);
        let p = self.prefix(index, enumeration_padding);
        push_all(&mut r, p.as_slice());
        r
    }

    /// The marker of the block at `index`.
    pub fn prefix(&self, index: usize, enumeration_padding: usize) -> (r: Vec<char>)
        requires
            enumeration_padding <= 20,
        ensures
            r@ == spec_prefix(self.1, index as nat, enumeration_padding as nat),
    {
        let mut r: Vec<char> = Vec::new();
        match self.1 {
            Decoration::Undecorated => {},
            Decoration::Bullet => {
                r.push('*');
                r.push(' ');
                assert(r@ =~= seq!['*', ' ']);
            },
            Decoration::Enumerate => {
                let digits = crate::text::decimal_chars(index);
                if digits.len() < enumeration_padding {
                    push_spaces(&mut r, enumeration_padding - digits.len());
                }
                push_all(&mut r, digits.as_slice());
                r.push('.');
                r.push(' ');
                assert(r@ =~= spec_prefix(self.1, index as nat, enumeration_padding as nat));
            },
        }
        r
    }

    /// The width of the widest index, when the list is enumerated.
    pub fn enumeration_padding(&self) -> (r: usize)
        ensures
            r == spec_enumeration_padding(self.1, self.0@.len()),
            r <= 20,
    {
        match self.1 {
            Decoration::Undecorated => 0,
            Decoration::Bullet => 0,
            Decoration::Enumerate => {
                if self.0.len() > 1 {
                    let digits = crate::text::decimal_chars(self.0.len() - 1);
                    proof {
                        lemma_decimal_len((self.0@.len() - 1) as nat);
                    }
                    digits.len()
                } else {
                    // Only zero or one block: the single index has one digit.
                    1
                }
            },
        }
    }
}

/// A bullet or enumeration prefix has at most 22 characters.
pub proof fn lemma_prefix_len(d: Decoration, index: nat, padding: nat)
    requires
        padding <= 20,
        index <= usize::MAX,
    ensures
        spec_prefix(d, index, padding).len() <= 22,
{
    lemma_decimal_len(index);
}

} // verus!
