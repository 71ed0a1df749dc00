//! Tree builder: turns the token sequence into one well-formed document
//! tree, enforcing tag-matching discipline with an explicit stack.

use vstd::prelude::*;

use crate::lexer::{Token, TokenModel, TokenType};
use crate::strutil::str_eq;

verus! {

/// One element of the document tree: a tag name, the children in document
/// order, and the text accumulated while the element was current.
#[derive(Debug, PartialEq)]
pub struct Node {
    pub tag_name: String,
    pub children: Vec<Node>,
    pub text: Option<String>,
}

/// The mathematical image of a [`Node`].
#[verifier::ext_equal]
pub ghost struct NodeModel {
    pub name: Seq<char>,
    pub children: Seq<NodeModel>,
    pub text: Option<Seq<char>>,
}

impl View for Node {
    type V = NodeModel;

    open spec fn view(&self) -> NodeModel
        decreases self,
    {
        NodeModel {
            name: self.tag_name@,
            children: Seq::new(
                self.children@.len(),
                |i: int|
                    if 0 <= i < self.children@.len() {
                        self.children@[i].view()
                    } else {
                        arbitrary()
                    },
            ),
            text: match self.text {
                Some(s) => Some(s@),
                None => None,
            },
        }
    }
}

/// The image of a stack or child list of nodes.
pub open spec fn nodes_view(s: Seq<Node>) -> Seq<NodeModel> {
    s.map_values(|nd: Node| nd@)
}

/// A node's children, seen through the view, are the views of its children.
pub proof fn lemma_children_view(n: Node)
    ensures
        n@.children == nodes_view(n.children@),
{
    reveal_with_fuel(<Node as View>::view, 2);
    assert(n@.children =~= nodes_view(n.children@));
}

/// A structural parsing failure.
#[derive(Debug, Clone, PartialEq)]
pub enum ParseError {
    /// An end tag did not match the tag currently open.
    MismatchedTag { expected: String, found: String },
    /// One or more elements were never closed.
    UnclosedTags,
}

/// The mathematical image of a [`ParseError`].
pub ghost enum ParseErrorModel {
    MismatchedTag { expected: Seq<char>, found: Seq<char> },
    UnclosedTags,
}

impl View for ParseError {
    type V = ParseErrorModel;

    open spec fn view(&self) -> ParseErrorModel {
        match self {
            ParseError::MismatchedTag { expected, found } => ParseErrorModel::MismatchedTag {
                expected: expected@,
                found: found@,
            },
            ParseError::UnclosedTags => ParseErrorModel::UnclosedTags,
        }
    }
}

/// The builder's configuration between two tokens: the stack of suspended
/// elements (with one saved `open` flag each), the current element, and
/// whether it still awaits its end tag, or a failure. `done` records that
/// an `Eof` token has stopped the machine.
#[verifier::ext_equal]
pub ghost enum BuildConfig {
    Run {
        stack: Seq<NodeModel>,
        flags: Seq<bool>,
        current: NodeModel,
        open: bool,
        done: bool,
    },
    Fail { error: ParseErrorModel },
}

pub open spec fn empty_node() -> NodeModel {
    NodeModel { name: Seq::empty(), children: Seq::empty(), text: None }
}

pub open spec fn init_build() -> BuildConfig {
    BuildConfig::Run {
        stack: Seq::empty(),
        flags: Seq::empty(),
        current: empty_node(),
        open: false,
        done: false,
    }
}

/// One step of the builder on token `t`.
///
/// A self-closing start tag is deliberately treated like any other start
/// tag: the element it opens must still be closed by an explicit end tag,
/// or the build ends in `UnclosedTags`. A `StartTag` or `EndTag` token
/// without a name, or a `Char` token without data, changes nothing; the
/// tokenizer never produces such tokens.
pub open spec fn build_step(cfg: BuildConfig, t: TokenModel) -> BuildConfig {
    match cfg {
        BuildConfig::Fail { .. } => cfg,
        BuildConfig::Run { stack, flags, current, open, done } => {
            if done {
                cfg
            } else {
                match t.token_type {
                    TokenType::StartTag => {
                        match t.tag_name {
                            Some(name) => {
                                let keep = current.name.len() != 0;
                                BuildConfig::Run {
                                    stack: if keep {
                                        stack.push(current)
                                    } else {
                                        stack
                                    },
                                    flags: if keep {
                                        flags.push(open)
                                    } else {
                                        flags
                                    },
                                    current: NodeModel {
                                        name,
                                        children: Seq::empty(),
                                        text: None,
                                    },
                                    open: true,
                                    done: false,
                                }
                            },
                            None => cfg,
                        }
                    },
                    TokenType::EndTag => {
                        match t.tag_name {
                            Some(name) => {
                                if name == current.name {
                                    if stack.len() > 0 {
                                        let parent = stack.last();
                                        BuildConfig::Run {
                                            stack: stack.drop_last(),
                                            flags: flags.drop_last(),
                                            current: NodeModel {
                                                children: parent.children.push(current),
                                                ..parent
                                            },
                                            open: flags.last(),
                                            done: false,
                                        }
                                    } else {
                                        BuildConfig::Run {
                                            stack,
                                            flags,
                                            current,
                                            open: false,
                                            done: false,
                                        }
                                    }
                                } else {
                                    BuildConfig::Fail {
                                        error: ParseErrorModel::MismatchedTag {
                                            expected: current.name,
                                            found: name,
                                        },
                                    }
                                }
                            },
                            None => cfg,
                        }
                    },
                    TokenType::Char => {
                        match t.data {
                            Some(data) => BuildConfig::Run {
                                stack,
                                flags,
                                current: NodeModel {
                                    text: match current.text {
                                        Some(old_text) => Some(old_text + data),
                                        None => Some(data),
                                    },
                                    ..current
                                },
                                open,
                                done: false,
                            },
                            None => cfg,
                        }
                    },
                    TokenType::Eof => BuildConfig::Run { stack, flags, current, open, done: true },
                }
            }
        },
    }
}

/// The builder's configuration after the first `n` tokens.
pub open spec fn build_at(tokens: Seq<TokenModel>, n: int) -> BuildConfig
    decreases n,
{
    if n <= 0 {
        init_build()
    } else {
        build_step(build_at(tokens, n - 1), tokens[n - 1])
    }
}

/// Once the machine has failed, later tokens change nothing.
proof fn lemma_fail_stable(tokens: Seq<TokenModel>, k: int, m: int)
    requires
        0 <= k <= m,
        build_at(tokens, k) is Fail,
    ensures
        build_at(tokens, m) == build_at(tokens, k),
    decreases m - k,
{
    if m > k {
        lemma_fail_stable(tokens, k, m - 1);
    }
}

/// The result of building a tree from a whole token sequence: the final
/// current element, unless the machine failed or any element — suspended
/// on the stack or still current — awaits its end tag.
pub open spec fn spec_parse(tokens: Seq<TokenModel>) -> Result<NodeModel, ParseErrorModel> {
    match build_at(tokens, tokens.len() as int) {
        BuildConfig::Fail { error } => Err(error),
        BuildConfig::Run { stack, current, open, .. } => {
            if stack.len() > 0 || open {
                Err(ParseErrorModel::UnclosedTags)
            } else {
                Ok(current)
            }
        },
    }
}

/// Builds the document tree for a token sequence, or reports the first
/// structural failure.
pub fn parse(tokens: &[Token]) -> (r: Result<Node, ParseError>)
    ensures
        (match r {
            Ok(node) => spec_parse(tokens@.map_values(|t: Token| t@)) == Ok::<NodeModel,
                ParseErrorModel,
            >(node@),
            Err(e) => spec_parse(tokens@.map_values(|t: Token| t@)) == Err::<NodeModel,
                ParseErrorModel,
            >(e@),
        }),
{
    let ghost toks = tokens@.map_values(|t: Token| t@);
    let mut stack: Vec<Node> = Vec::new();
    let mut open_flags: Vec<bool> = Vec::new();
    let mut current_node = Node { tag_name: String::new(), children: Vec::new(), text: None };
    let mut current_open = false;

    let n = tokens.len();
    let mut i: usize = 0;
    let mut done = false;
    proof {
        assert(nodes_view(stack@) =~= Seq::<NodeModel>::empty());
        assert(current_node@.name =~= Seq::<char>::empty());
        assert(current_node@.children =~= Seq::<NodeModel>::empty());
        assert(current_node@ =~~= empty_node());
    }
    while i < n
        invariant
            n == tokens@.len(),
            toks == tokens@.map_values(|t: Token| t@),
            i <= n,
            stack@.len() == open_flags@.len(),
            build_at(toks, i as int) == (BuildConfig::Run {
                stack: nodes_view(stack@),
                flags: open_flags@,
                current: current_node@,
                open: current_open,
                done,
            }),
        decreases n - i,
    {
        let ghost pre = build_at(toks, i as int);
        let ghost pre_stack = nodes_view(stack@);
        let ghost pre_current = current_node@;
        let token = &tokens[i];
        if !done {
            match token.token_type {
                TokenType::StartTag => {
                    if let Some(tag_name) = &token.tag_name {
                        if !current_node.tag_name.as_str().is_empty() {
                            stack.push(current_node);
                            open_flags.push(current_open);
                            proof {
                                assert(nodes_view(stack@) =~= pre_stack.push(pre_current));
                            }
                        }
                        current_node = Node {
                            tag_name: tag_name.clone(),
                            children: Vec::new(),
                            text: None,
                        };
                        current_open = true;
                        proof {
                            assert(current_node@.children =~= Seq::<NodeModel>::empty());
                            assert(current_node@ =~~= (NodeModel {
                                name: tag_name@,
                                children: Seq::empty(),
                                text: None,
                            }));
                        }
                    }
                },
                TokenType::EndTag => {
                    if let Some(tag_name) = &token.tag_name {
                        if str_eq(tag_name.as_str(), current_node.tag_name.as_str()) {
                            let completed_node = current_node;
                            if let Some(mut parent) = stack.pop() {
                                current_open = match open_flags.pop() {
                                    Some(f) => f,
                                    None => false,
                                };
                                let ghost kids_pre = parent.children@;
                                let ghost parent_pre = parent@;
                                proof {
                                    assert(nodes_view(stack@) =~= pre_stack.drop_last());
                                    assert(parent_pre == pre_stack.last());
                                }
                                parent.children.push(completed_node);
                                current_node = parent;
                                proof {
                                    reveal_with_fuel(<Node as View>::view, 2);
                                    assert(current_node.children@ == kids_pre.push(
                                        completed_node,
                                    ));
                                    assert forall|j: int| 0 <= j < kids_pre.len() implies
                                        current_node.children@[j].view()
                                            == parent_pre.children[j] by {
                                        assert(current_node.children@[j] == kids_pre[j]);
                                        assert(parent_pre.children[j] == kids_pre[j].view());
                                    }
                                    assert(current_node@.children =~= parent_pre.children.push(
                                        pre_current,
                                    ));
                                    assert(current_node@ =~~= (NodeModel {
                                        children: parent_pre.children.push(pre_current),
                                        ..parent_pre
                                    }));
                                }
                            } else {
                                current_node = completed_node;
                                current_open = false;
                            }
                        } else {
                            let err = ParseError::MismatchedTag {
                                expected: current_node.tag_name,
                                found: tag_name.clone(),
                            };
                            proof {
                                assert(build_at(toks, i + 1 as int) == build_step(
                                    pre,
                                    toks[i as int],
                                ));
                                assert(build_at(toks, i + 1 as int) == (BuildConfig::Fail {
                                    error: err@,
                                }));
                                lemma_fail_stable(toks, i + 1 as int, toks.len() as int);
                            }
                            return Err(err);
                        }
                    }
                },
                TokenType::Char => {
                    if let Some(data) = &token.data {
                        let text = match current_node.text {
                            Some(t) => t,
                            None => String::new(),
                        };
                        current_node.text = Some(text.concat(data.as_str()));
                        proof {
                            assert(current_node@ =~~= (NodeModel {
                                text: match pre_current.text {
                                    Some(old_text) => Some(old_text + data@),
                                    None => Some(data@),
                                },
                                ..pre_current
                            }));
                        }
                    }
                },
                TokenType::Eof => {
                    done = true;
                },
            }
        }
        proof {
            assert(build_at(toks, i + 1 as int) == build_step(pre, toks[i as int]));
            assert((BuildConfig::Run {
                stack: nodes_view(stack@),
                flags: open_flags@,
                current: current_node@,
                open: current_open,
                done,
            }) =~~= build_step(pre, toks[i as int]));
        }
        i = i + 1;
    }

    if !stack.is_empty() || current_open {
        return Err(ParseError::UnclosedTags);
    }

    Ok(current_node)
}

} // verus!
