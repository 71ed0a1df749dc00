//! Statements that tie the pipeline's stages together: where page-break
//! markers stand in a mapped deck, and that a well-formed tree is rebuilt
//! exactly from its own token sequence.

use vstd::prelude::*;

use crate::lexer::{char_token, eof_token, lex_at, spec_tokenize, TokenModel, TokenType};
use crate::mapper::{
    deck_at, has_next_page, map_child, page_at, page_scan, spec_map_deck, BlockModel,
};
use crate::tree::{
    build_at, build_step, init_build, spec_parse, BuildConfig, NodeModel, ParseErrorModel,
};

verus! {

/// The realized block stream of a deck: the pages' block lists, in order.
pub open spec fn block_stream(pages: Seq<Seq<BlockModel>>) -> Seq<BlockModel>
    decreases pages.len(),
{
    if pages.len() == 0 {
        Seq::empty()
    } else {
        block_stream(pages.drop_last()) + pages.last()
    }
}

/// How many page-break markers a block sequence holds.
pub open spec fn count_breaks(s: Seq<BlockModel>) -> int
    decreases s.len(),
{
    if s.len() == 0 {
        0
    } else {
        count_breaks(s.drop_last()) + (if s.last() is PageBreak {
            1int
        } else {
            0int
        })
    }
}

proof fn lemma_count_breaks_add(a: Seq<BlockModel>, b: Seq<BlockModel>)
    ensures
        count_breaks(a + b) == count_breaks(a) + count_breaks(b),
    decreases b.len(),
{
    if b.len() == 0 {
        assert(a + b =~= a);
    } else {
        lemma_count_breaks_add(a, b.drop_last());
        assert((a + b).drop_last() =~= a + b.drop_last());
        assert((a + b).last() == b.last());
    }
}

/// A page's content blocks never include a page-break marker.
proof fn lemma_page_content_no_breaks(children: Seq<NodeModel>, n: int)
    ensures
        count_breaks(page_at(children, n).blocks) == 0,
    decreases n,
{
    if n <= 0 {
    } else {
        lemma_page_content_no_breaks(children, n - 1);
        let prev = page_at(children, n - 1);
        let e = map_child(children[n - 1]);
        let tail: Seq<BlockModel> = match e.block {
            Some(b) => seq![b],
            None => Seq::empty(),
        };
        lemma_count_breaks_add(prev.blocks, tail);
        assert(count_breaks(tail) == 0) by {
            reveal_with_fuel(count_breaks, 2);
            match e.block {
                Some(b) => {
                    assert(seq![b].drop_last() =~= Seq::<BlockModel>::empty());
                    assert(!(b is PageBreak));
                },
                None => {},
            }
        }
    }
}

/// Under a deck whose children are all pages, the first `n` children map to
/// `n` pages, each carrying its own content and a trailing page-break
/// marker exactly when another child follows.
proof fn lemma_deck_structure(children: Seq<NodeModel>, n: int)
    requires
        0 <= n <= children.len(),
        forall|i: int| 0 <= i < children.len() ==> (#[trigger] children[i]).name == "page"@,
    ensures
        deck_at(children, n).pages.len() == n,
        forall|i: int|
            0 <= i < n ==> #[trigger] deck_at(children, n).pages[i] == page_scan(
                children[i].children,
            ).blocks + (if i + 1 < children.len() {
                seq![BlockModel::PageBreak]
            } else {
                Seq::empty()
            }),
    decreases n,
{
    if n > 0 {
        lemma_deck_structure(children, n - 1);
    }
}

proof fn lemma_stream_count(children: Seq<NodeModel>, n: int)
    requires
        0 <= n <= children.len(),
        forall|i: int| 0 <= i < children.len() ==> (#[trigger] children[i]).name == "page"@,
    ensures
        count_breaks(block_stream(deck_at(children, n).pages)) == (if n < children.len() || n
            == 0 {
            n
        } else {
            n - 1
        }),
    decreases n,
{
    if n > 0 {
        lemma_stream_count(children, n - 1);
        lemma_deck_structure(children, n - 1);
        let prev = deck_at(children, n - 1);
        let p = page_scan(children[n - 1].children);
        let tail: Seq<BlockModel> = if has_next_page(children, n - 1) {
            seq![BlockModel::PageBreak]
        } else {
            Seq::empty()
        };
        let blocks = p.blocks + tail;
        assert(deck_at(children, n).pages == prev.pages.push(blocks));
        assert(block_stream(prev.pages.push(blocks)) == block_stream(prev.pages) + blocks) by {
            assert(prev.pages.push(blocks).drop_last() =~= prev.pages);
            assert(prev.pages.push(blocks).last() == blocks);
        }
        lemma_count_breaks_add(block_stream(prev.pages), blocks);
        lemma_count_breaks_add(p.blocks, tail);
        lemma_page_content_no_breaks(children[n - 1].children, children[n - 1].children.len() as int);
        assert(count_breaks(tail) == (if n < children.len() {
            1int
        } else {
            0int
        })) by {
            reveal_with_fuel(count_breaks, 2);
            if has_next_page(children, n - 1) {
                assert(seq![BlockModel::PageBreak].drop_last() =~= Seq::<BlockModel>::empty());
            }
        }
    }
}

/// For a deck whose children are all pages, with at least one of them, the
/// mapped deck has one page per child; every page but the last ends in
/// exactly one page-break marker, the last page carries none, and the
/// realized block stream holds exactly one marker fewer than there are
/// pages — so no marker stands before the first page's blocks or after the
/// last page's.
pub proof fn lemma_deck_page_breaks(root: NodeModel, hint: Option<Seq<char>>)
    requires
        root.name == "deck"@,
        root.children.len() >= 1,
        forall|i: int| 0 <= i < root.children.len() ==> (#[trigger] root.children[i]).name
            == "page"@,
    ensures
        ({
            let deck = spec_map_deck(root, hint).0;
            &&& deck.pages.len() == root.children.len()
            &&& forall|i: int|
                0 <= i < deck.pages.len() - 1 ==> #[trigger] deck.pages[i] == page_scan(
                    root.children[i].children,
                ).blocks + seq![BlockModel::PageBreak]
            &&& deck.pages[deck.pages.len() - 1] == page_scan(
                root.children[root.children.len() - 1].children,
            ).blocks
            &&& count_breaks(block_stream(deck.pages)) == deck.pages.len() - 1
        }),
{
    let n = root.children.len() as int;
    lemma_deck_structure(root.children, n);
    lemma_stream_count(root.children, n);
    let deck = spec_map_deck(root, hint).0;
    assert(deck.pages[n - 1] == page_scan(root.children[n - 1].children).blocks + Seq::<
        BlockModel,
    >::empty());
    assert(page_scan(root.children[n - 1].children).blocks + Seq::<BlockModel>::empty()
        =~= page_scan(root.children[n - 1].children).blocks);
}

proof fn lemma_lex_no_eof(input: Seq<char>, n: int)
    requires
        0 <= n,
    ensures
        ({
            let cfg = lex_at(input, n);
            &&& forall|i: int|
                0 <= i < cfg.out.len() ==> (#[trigger] cfg.out[i]).token_type != TokenType::Eof
            &&& (match cfg.current {
                Some(t) => t.token_type != TokenType::Eof,
                None => true,
            })
        }),
    decreases n,
{
    if n > 0 {
        lemma_lex_no_eof(input, n - 1);
    }
}

/// The token sequence of any input ends in exactly one `Eof`: the last
/// token is `Eof`, and no earlier token is.
pub proof fn lemma_tokens_end_in_one_eof(input: Seq<char>)
    ensures
        ({
            let toks = spec_tokenize(input);
            &&& toks.len() >= 1
            &&& toks.last() == eof_token()
            &&& forall|i: int|
                0 <= i < toks.len() - 1 ==> (#[trigger] toks[i]).token_type != TokenType::Eof
        }),
{
    lemma_lex_no_eof(input, input.len() as int);
}

/// The start-tag token that opens an element named `name`.
pub open spec fn start_token(name: Seq<char>) -> TokenModel {
    TokenModel { token_type: TokenType::StartTag, tag_name: Some(name), self_closing: false, data: None }
}

/// The end-tag token that closes an element named `name`.
pub open spec fn end_token(name: Seq<char>) -> TokenModel {
    TokenModel { token_type: TokenType::EndTag, tag_name: Some(name), self_closing: false, data: None }
}

/// One character token per character of `t`, in order.
pub open spec fn chars_tokens(t: Seq<char>) -> Seq<TokenModel>
    decreases t.len(),
{
    if t.len() == 0 {
        Seq::empty()
    } else {
        chars_tokens(t.drop_last()).push(char_token(t.last()))
    }
}

pub open spec fn text_tokens(text: Option<Seq<char>>) -> Seq<TokenModel> {
    match text {
        None => Seq::empty(),
        Some(t) => chars_tokens(t),
    }
}

/// The canonical token sequence of a tree: the start tag, the text, the
/// children in order, the end tag.
pub open spec fn node_tokens(n: NodeModel) -> Seq<TokenModel>
    decreases n, 1int,
{
    seq![start_token(n.name)] + text_tokens(n.text) + children_tokens_from(n.children, 0)
        + seq![end_token(n.name)]
}

pub open spec fn children_tokens_from(ch: Seq<NodeModel>, i: int) -> Seq<TokenModel>
    decreases ch, ch.len() - i,
{
    if i < 0 || i >= ch.len() {
        Seq::empty()
    } else {
        node_tokens(ch[i]) + children_tokens_from(ch, i + 1)
    }
}

/// A tree the canonical token sequence can speak for: every element is
/// named, and a text buffer, when present, is nonempty — an element that
/// saw no character tokens has no buffer at all.
pub open spec fn wf_node(n: NodeModel) -> bool
    decreases n, 1int,
{
    &&& n.name.len() > 0
    &&& (match n.text {
        Some(t) => t.len() > 0,
        None => true,
    })
    &&& wf_children_from(n.children, 0)
}

pub open spec fn wf_children_from(ch: Seq<NodeModel>, i: int) -> bool
    decreases ch, ch.len() - i,
{
    if i < 0 || i >= ch.len() {
        true
    } else {
        wf_node(ch[i]) && wf_children_from(ch, i + 1)
    }
}

/// The builder run as a fold over a token sequence.
pub open spec fn build_run(cfg: BuildConfig, ts: Seq<TokenModel>) -> BuildConfig
    decreases ts.len(),
{
    if ts.len() == 0 {
        cfg
    } else {
        build_step(build_run(cfg, ts.drop_last()), ts.last())
    }
}

proof fn lemma_run_add(cfg: BuildConfig, a: Seq<TokenModel>, b: Seq<TokenModel>)
    ensures
        build_run(cfg, a + b) == build_run(build_run(cfg, a), b),
    decreases b.len(),
{
    if b.len() == 0 {
        assert(a + b =~= a);
    } else {
        lemma_run_add(cfg, a, b.drop_last());
        assert((a + b).drop_last() =~= a + b.drop_last());
        assert((a + b).last() == b.last());
    }
}

proof fn lemma_run_one(cfg: BuildConfig, t: TokenModel)
    ensures
        build_run(cfg, seq![t]) == build_step(cfg, t),
{
    reveal_with_fuel(build_run, 2);
    assert(seq![t].drop_last() =~= Seq::<TokenModel>::empty());
    assert(seq![t].last() == t);
}

/// The prefix machine and the fold agree.
proof fn lemma_build_at_is_run(toks: Seq<TokenModel>, n: int)
    requires
        0 <= n <= toks.len(),
    ensures
        build_at(toks, n) == build_run(init_build(), toks.take(n)),
    decreases n,
{
    if n == 0 {
        assert(toks.take(0) =~= Seq::<TokenModel>::empty());
    } else {
        lemma_build_at_is_run(toks, n - 1);
        assert(toks.take(n).drop_last() =~= toks.take(n - 1));
        assert(toks.take(n).last() == toks[n - 1]);
    }
}

/// Running the character tokens of `t` appends `t` to the current text.
proof fn lemma_run_chars(
    stack: Seq<NodeModel>,
    flags: Seq<bool>,
    cur: NodeModel,
    open: bool,
    t: Seq<char>,
)
    ensures
        build_run(
            BuildConfig::Run { stack, flags, current: cur, open, done: false },
            chars_tokens(t),
        ) == (BuildConfig::Run {
            stack,
            flags,
            current: NodeModel {
                text: if t.len() == 0 {
                    cur.text
                } else {
                    match cur.text {
                        Some(u) => Some(u + t),
                        None => Some(t),
                    }
                },
                ..cur
            },
            open,
            done: false,
        }),
    decreases t.len(),
{
    if t.len() == 0 {
    } else {
        lemma_run_chars(stack, flags, cur, open, t.drop_last());
        let prev = chars_tokens(t.drop_last());
        assert(chars_tokens(t).drop_last() =~= prev);
        assert(chars_tokens(t).last() == char_token(t.last()));
        if t.len() == 1 {
            assert(t.drop_last() =~= Seq::<char>::empty());
            match cur.text {
                Some(u) => {
                    assert(u + seq![t.last()] =~= u + t);
                },
                None => {
                    assert(seq![t.last()] =~= t);
                },
            }
        } else {
            match cur.text {
                Some(u) => {
                    assert((u + t.drop_last()) + seq![t.last()] =~= u + t);
                },
                None => {
                    assert(t.drop_last() + seq![t.last()] =~= t);
                },
            }
        }
    }
}

/// Running one well-formed subtree's tokens appends that subtree as the
/// last child of the current element, leaving everything else in place.
proof fn lemma_run_node(
    t: NodeModel,
    stack: Seq<NodeModel>,
    flags: Seq<bool>,
    cur: NodeModel,
    open: bool,
)
    requires
        wf_node(t),
        cur.name.len() > 0,
    ensures
        build_run(
            BuildConfig::Run { stack, flags, current: cur, open, done: false },
            node_tokens(t),
        ) == (BuildConfig::Run {
            stack,
            flags,
            current: NodeModel { children: cur.children.push(t), ..cur },
            open,
            done: false,
        }),
    decreases t, 1int,
{
    let cfg0 = BuildConfig::Run { stack, flags, current: cur, open, done: false };
    let s1 = seq![start_token(t.name)];
    let s2 = text_tokens(t.text);
    let s3 = children_tokens_from(t.children, 0);
    let s4 = seq![end_token(t.name)];
    lemma_run_add(cfg0, s1 + s2 + s3, s4);
    lemma_run_add(cfg0, s1 + s2, s3);
    lemma_run_add(cfg0, s1, s2);
    lemma_run_one(cfg0, start_token(t.name));

    let inner = stack.push(cur);
    let inner_flags = flags.push(open);
    let fresh = NodeModel { name: t.name, children: Seq::empty(), text: None };
    assert(build_run(cfg0, s1) == (BuildConfig::Run {
        stack: inner,
        flags: inner_flags,
        current: fresh,
        open: true,
        done: false,
    }));

    let fresh2 = NodeModel { text: t.text, ..fresh };
    match t.text {
        Some(tx) => {
            lemma_run_chars(inner, inner_flags, fresh, true, tx);
        },
        None => {},
    }
    assert(build_run(cfg0, s1 + s2) == (BuildConfig::Run {
        stack: inner,
        flags: inner_flags,
        current: fresh2,
        open: true,
        done: false,
    }));

    lemma_run_children(t.children, 0, inner, inner_flags, fresh2, true);
    let fresh3 = NodeModel { children: fresh2.children + t.children.skip(0), ..fresh2 };
    assert(fresh3.children =~= t.children);
    assert(fresh3 == t) by {
        assert(fresh3 =~= t);
    }
    assert(build_run(cfg0, s1 + s2 + s3) == (BuildConfig::Run {
        stack: inner,
        flags: inner_flags,
        current: t,
        open: true,
        done: false,
    }));

    lemma_run_one(build_run(cfg0, s1 + s2 + s3), end_token(t.name));
    assert(inner.last() == cur);
    assert(inner.drop_last() =~= stack);
    assert(inner_flags.last() == open);
    assert(inner_flags.drop_last() =~= flags);
    assert(node_tokens(t) == s1 + s2 + s3 + s4);
}

/// Running the tokens of a run of well-formed siblings appends them all,
/// in order, to the current element's children.
proof fn lemma_run_children(
    ch: Seq<NodeModel>,
    i: int,
    stack: Seq<NodeModel>,
    flags: Seq<bool>,
    cur: NodeModel,
    open: bool,
)
    requires
        0 <= i <= ch.len(),
        wf_children_from(ch, i),
        cur.name.len() > 0,
    ensures
        build_run(
            BuildConfig::Run { stack, flags, current: cur, open, done: false },
            children_tokens_from(ch, i),
        ) == (BuildConfig::Run {
            stack,
            flags,
            current: NodeModel { children: cur.children + ch.skip(i), ..cur },
            open,
            done: false,
        }),
    decreases ch, ch.len() - i,
{
    let cfg0 = BuildConfig::Run { stack, flags, current: cur, open, done: false };
    if i >= ch.len() {
        assert(ch.skip(i) =~= Seq::<NodeModel>::empty());
        assert(cur.children + ch.skip(i) =~= cur.children);
        assert((NodeModel { children: cur.children + ch.skip(i), ..cur }) =~= cur);
    } else {
        lemma_run_add(cfg0, node_tokens(ch[i]), children_tokens_from(ch, i + 1));
        lemma_run_node(ch[i], stack, flags, cur, open);
        let cur2 = NodeModel { children: cur.children.push(ch[i]), ..cur };
        lemma_run_children(ch, i + 1, stack, flags, cur2, open);
        assert(cur2.children + ch.skip(i + 1) =~= cur.children + ch.skip(i));
    }
}

/// A well-formed tree is rebuilt exactly from its own token sequence: the
/// names, the nesting depth, the order of the children and the text all
/// mirror the tree the tokens were written from.
pub proof fn lemma_tree_round_trip(t: NodeModel)
    requires
        wf_node(t),
    ensures
        spec_parse(node_tokens(t).push(eof_token())) == Ok::<NodeModel, ParseErrorModel>(t),
{
    let toks = node_tokens(t).push(eof_token());
    lemma_build_at_is_run(toks, toks.len() as int);
    assert(toks.take(toks.len() as int) =~= toks);
    assert(toks.drop_last() =~= node_tokens(t));
    assert(toks.last() == eof_token());

    let cfg0 = init_build();
    let s1 = seq![start_token(t.name)];
    let s2 = text_tokens(t.text);
    let s3 = children_tokens_from(t.children, 0);
    let s4 = seq![end_token(t.name)];
    lemma_run_add(cfg0, s1 + s2 + s3, s4);
    lemma_run_add(cfg0, s1 + s2, s3);
    lemma_run_add(cfg0, s1, s2);
    lemma_run_one(cfg0, start_token(t.name));

    let fresh = NodeModel { name: t.name, children: Seq::empty(), text: None };
    assert(build_run(cfg0, s1) == (BuildConfig::Run {
        stack: Seq::empty(),
        flags: Seq::empty(),
        current: fresh,
        open: true,
        done: false,
    }));

    let fresh2 = NodeModel { text: t.text, ..fresh };
    match t.text {
        Some(tx) => {
            lemma_run_chars(Seq::empty(), Seq::empty(), fresh, true, tx);
        },
        None => {},
    }
    assert(build_run(cfg0, s1 + s2) == (BuildConfig::Run {
        stack: Seq::empty(),
        flags: Seq::empty(),
        current: fresh2,
        open: true,
        done: false,
    }));

    lemma_run_children(t.children, 0, Seq::empty(), Seq::empty(), fresh2, true);
    let fresh3 = NodeModel { children: fresh2.children + t.children.skip(0), ..fresh2 };
    assert(fresh3.children =~= t.children);
    assert(fresh3 == t) by {
        assert(fresh3 =~= t);
    }
    assert(build_run(cfg0, s1 + s2 + s3) == (BuildConfig::Run {
        stack: Seq::empty(),
        flags: Seq::empty(),
        current: t,
        open: true,
        done: false,
    }));

    lemma_run_one(build_run(cfg0, s1 + s2 + s3), end_token(t.name));
    assert(node_tokens(t) == s1 + s2 + s3 + s4);
    assert(build_run(cfg0, node_tokens(t)) == (BuildConfig::Run {
        stack: Seq::empty(),
        flags: Seq::empty(),
        current: t,
        open: false,
        done: false,
    }));
}

} // verus!
