//! Document mapper: walks a finalized document tree and produces a typed
//! deck model — paper geometry, an optional title, and one ordered block
//! list per page.
//!
//! Mapping never fails: unknown tags, missing image paths and the like are
//! absorbed silently, and an unreadable image scale only adds a warning and
//! falls back to the default scale of one.

use vstd::prelude::*;

use crate::scale::{parse_scale, spec_parse_scale};
use crate::strutil::str_eq;
use crate::tree::{lemma_children_view, nodes_view, Node, NodeModel};

verus! {

/// Font size of a title heading, in points.
pub const TITLE_FONT_SIZE: u32 = 30;

/// Font size of body text and list entries, in points.
pub const BODY_FONT_SIZE: u32 = 24;

/// The default image scale, in thousandths.
pub const DEFAULT_SCALE_THOUSANDTHS: u64 = 1000;

/// Wide paper preset, in tenths of a millimetre.
pub const WIDE_PAPER_WIDTH: u32 = 2540;

pub const WIDE_PAPER_HEIGHT: u32 = 1429;

/// Default paper preset, in tenths of a millimetre.
pub const DEFAULT_PAPER_WIDTH: u32 = 2751;

pub const DEFAULT_PAPER_HEIGHT: u32 = 1905;

/// Fixed page margins, in tenths of a millimetre.
pub const MARGIN_TOP: u32 = 200;

pub const MARGIN_RIGHT: u32 = 150;

pub const MARGIN_BOTTOM: u32 = 200;

pub const MARGIN_LEFT: u32 = 150;

/// Paper width and height, in tenths of a millimetre.
#[derive(Debug, Clone, PartialEq)]
pub struct PaperSize {
    pub width_tenth_mm: u32,
    pub height_tenth_mm: u32,
}

/// The margin box, in tenths of a millimetre.
#[derive(Debug, Clone, PartialEq)]
pub struct MarginBox {
    pub top_tenth_mm: u32,
    pub right_tenth_mm: u32,
    pub bottom_tenth_mm: u32,
    pub left_tenth_mm: u32,
}

/// One typed, orderable unit of page content. An image's scale is kept in
/// thousandths; the page-break marker that ends a page's block list when
/// another page follows is itself a block.
#[derive(Debug, Clone, PartialEq)]
pub enum Block {
    Heading { text: String, size: u32, bold: bool, centered: bool },
    Subheading { text: String },
    Paragraph { text: String, size: u32 },
    BulletList { items: Vec<String> },
    NumberedList { items: Vec<String> },
    LineBreak,
    Image { path: String, scale_thousandths: u64 },
    PageBreak,
}

/// The mathematical image of a [`Block`].
pub ghost enum BlockModel {
    Heading { text: Seq<char>, size: u32, bold: bool, centered: bool },
    Subheading { text: Seq<char> },
    Paragraph { text: Seq<char>, size: u32 },
    BulletList { items: Seq<Seq<char>> },
    NumberedList { items: Seq<Seq<char>> },
    LineBreak,
    Image { path: Seq<char>, scale_thousandths: u64 },
    PageBreak,
}

impl View for Block {
    type V = BlockModel;

    open spec fn view(&self) -> BlockModel {
        match self {
            Block::Heading { text, size, bold, centered } => BlockModel::Heading {
                text: text@,
                size: *size,
                bold: *bold,
                centered: *centered,
            },
            Block::Subheading { text } => BlockModel::Subheading { text: text@ },
            Block::Paragraph { text, size } => BlockModel::Paragraph { text: text@, size: *size },
            Block::BulletList { items } => BlockModel::BulletList {
                items: items@.map_values(|s: String| s@),
            },
            Block::NumberedList { items } => BlockModel::NumberedList {
                items: items@.map_values(|s: String| s@),
            },
            Block::LineBreak => BlockModel::LineBreak,
            Block::Image { path, scale_thousandths } => BlockModel::Image {
                path: path@,
                scale_thousandths: *scale_thousandths,
            },
            Block::PageBreak => BlockModel::PageBreak,
        }
    }
}

/// One page of the deck: an ordered list of blocks.
#[derive(Debug, Clone, PartialEq)]
pub struct Page {
    pub blocks: Vec<Block>,
}

impl View for Page {
    type V = Seq<BlockModel>;

    open spec fn view(&self) -> Seq<BlockModel> {
        self.blocks@.map_values(|b: Block| b@)
    }
}

/// A warning gathered while mapping; mapping itself never fails.
#[derive(Debug, Clone, PartialEq)]
pub enum MapWarning {
    /// An image's scale text did not parse; the default scale was used.
    UnparsableScale { text: String },
}

/// The mathematical image of a [`MapWarning`].
pub ghost enum MapWarningModel {
    UnparsableScale { text: Seq<char> },
}

impl View for MapWarning {
    type V = MapWarningModel;

    open spec fn view(&self) -> MapWarningModel {
        match self {
            MapWarning::UnparsableScale { text } => MapWarningModel::UnparsableScale {
                text: text@,
            },
        }
    }
}

pub open spec fn warnings_view(s: Seq<MapWarning>) -> Seq<MapWarningModel> {
    s.map_values(|w: MapWarning| w@)
}

/// The mapped deck: optional title, paper geometry, margins, and the pages
/// in document order.
#[derive(Debug, Clone, PartialEq)]
pub struct DeckModel {
    pub title: Option<String>,
    pub paper: PaperSize,
    pub margins: MarginBox,
    pub pages: Vec<Page>,
}

/// The mathematical image of a [`DeckModel`].
#[verifier::ext_equal]
pub ghost struct DeckModelSpec {
    pub title: Option<Seq<char>>,
    pub paper: PaperSize,
    pub margins: MarginBox,
    pub pages: Seq<Seq<BlockModel>>,
}

impl View for DeckModel {
    type V = DeckModelSpec;

    open spec fn view(&self) -> DeckModelSpec {
        DeckModelSpec {
            title: match self.title {
                Some(t) => Some(t@),
                None => None,
            },
            paper: self.paper,
            margins: self.margins,
            pages: self.pages@.map_values(|p: Page| p@),
        }
    }
}

/// The paper preset selected by the size hint: `"wide"` selects the wide
/// preset, anything else (or no hint) the default preset.
pub open spec fn spec_paper(hint: Option<Seq<char>>) -> PaperSize {
    if hint == Some("wide"@) {
        PaperSize { width_tenth_mm: WIDE_PAPER_WIDTH, height_tenth_mm: WIDE_PAPER_HEIGHT }
    } else {
        PaperSize { width_tenth_mm: DEFAULT_PAPER_WIDTH, height_tenth_mm: DEFAULT_PAPER_HEIGHT }
    }
}

pub open spec fn spec_margins() -> MarginBox {
    MarginBox {
        top_tenth_mm: MARGIN_TOP,
        right_tenth_mm: MARGIN_RIGHT,
        bottom_tenth_mm: MARGIN_BOTTOM,
        left_tenth_mm: MARGIN_LEFT,
    }
}

/// The list entry contributed by one child of a `ul` or `ol` element:
/// the text of an `li` element, nothing otherwise.
pub open spec fn li_item(n: NodeModel) -> Seq<Seq<char>> {
    if n.name == "li"@ && n.text is Some {
        seq![n.text->Some_0]
    } else {
        Seq::empty()
    }
}

pub open spec fn li_items_at(children: Seq<NodeModel>, n: int) -> Seq<Seq<char>>
    decreases n,
{
    if n <= 0 {
        Seq::empty()
    } else {
        li_items_at(children, n - 1) + li_item(children[n - 1])
    }
}

/// The entries of a list element, in document order.
pub open spec fn li_items(children: Seq<NodeModel>) -> Seq<Seq<char>> {
    li_items_at(children, children.len() as int)
}

/// What a walk over an `image` element's children has gathered: the last
/// path seen, the last scale that parsed (default one otherwise), and one
/// warning per scale that did not parse.
#[verifier::ext_equal]
pub ghost struct ImageScan {
    pub path: Option<Seq<char>>,
    pub scale_thousandths: u64,
    pub warnings: Seq<MapWarningModel>,
}

pub open spec fn scan_image_at(children: Seq<NodeModel>, n: int) -> ImageScan
    decreases n,
{
    if n <= 0 {
        ImageScan {
            path: None,
            scale_thousandths: DEFAULT_SCALE_THOUSANDTHS,
            warnings: Seq::empty(),
        }
    } else {
        let prev = scan_image_at(children, n - 1);
        let c = children[n - 1];
        if c.name == "path"@ && c.text is Some {
            ImageScan { path: Some(c.text->Some_0), ..prev }
        } else if c.name == "scale"@ && c.text is Some {
            match spec_parse_scale(c.text->Some_0) {
                Some(v) => ImageScan { scale_thousandths: v, ..prev },
                None => ImageScan {
                    warnings: prev.warnings.push(
                        MapWarningModel::UnparsableScale { text: c.text->Some_0 },
                    ),
                    ..prev
                },
            }
        } else {
            prev
        }
    }
}

pub open spec fn scan_image(children: Seq<NodeModel>) -> ImageScan {
    scan_image_at(children, children.len() as int)
}

/// What one child of a `page` element contributes: at most one block, a
/// title to set, and any warnings.
#[verifier::ext_equal]
pub ghost struct ChildEffect {
    pub block: Option<BlockModel>,
    pub title: Option<Seq<char>>,
    pub warnings: Seq<MapWarningModel>,
}

pub open spec fn quiet_effect() -> ChildEffect {
    ChildEffect { block: None, title: None, warnings: Seq::empty() }
}

/// The per-tag dispatch for one child of a page.
pub open spec fn map_child(n: NodeModel) -> ChildEffect {
    if n.name == "title"@ {
        match n.text {
            Some(t) => ChildEffect {
                block: Some(
                    BlockModel::Heading {
                        text: t,
                        size: TITLE_FONT_SIZE,
                        bold: true,
                        centered: true,
                    },
                ),
                title: Some(t),
                warnings: Seq::empty(),
            },
            None => quiet_effect(),
        }
    } else if n.name == "head"@ {
        match n.text {
            Some(t) => ChildEffect {
                block: Some(BlockModel::Subheading { text: t }),
                title: None,
                warnings: Seq::empty(),
            },
            None => quiet_effect(),
        }
    } else if n.name == "text"@ {
        match n.text {
            Some(t) => ChildEffect {
                block: Some(BlockModel::Paragraph { text: t, size: BODY_FONT_SIZE }),
                title: None,
                warnings: Seq::empty(),
            },
            None => quiet_effect(),
        }
    } else if n.name == "ul"@ {
        ChildEffect {
            block: Some(BlockModel::BulletList { items: li_items(n.children) }),
            title: None,
            warnings: Seq::empty(),
        }
    } else if n.name == "ol"@ {
        ChildEffect {
            block: Some(BlockModel::NumberedList { items: li_items(n.children) }),
            title: None,
            warnings: Seq::empty(),
        }
    } else if n.name == "br"@ {
        ChildEffect { block: Some(BlockModel::LineBreak), title: None, warnings: Seq::empty() }
    } else if n.name == "image"@ {
        let sc = scan_image(n.children);
        ChildEffect {
            block: match sc.path {
                Some(p) => Some(
                    BlockModel::Image { path: p, scale_thousandths: sc.scale_thousandths },
                ),
                None => None,
            },
            title: None,
            warnings: sc.warnings,
        }
    } else {
        quiet_effect()
    }
}

/// What a walk over one page's children has gathered.
#[verifier::ext_equal]
pub ghost struct PageScan {
    pub blocks: Seq<BlockModel>,
    pub title: Option<Seq<char>>,
    pub warnings: Seq<MapWarningModel>,
}

pub open spec fn page_at(children: Seq<NodeModel>, n: int) -> PageScan
    decreases n,
{
    if n <= 0 {
        PageScan { blocks: Seq::empty(), title: None, warnings: Seq::empty() }
    } else {
        let prev = page_at(children, n - 1);
        let e = map_child(children[n - 1]);
        PageScan {
            blocks: prev.blocks + (match e.block {
                Some(b) => seq![b],
                None => Seq::empty(),
            }),
            title: match e.title {
                Some(t) => Some(t),
                None => prev.title,
            },
            warnings: prev.warnings + e.warnings,
        }
    }
}

/// The content blocks of one page, the title it sets (the last one wins),
/// and its warnings.
pub open spec fn page_scan(children: Seq<NodeModel>) -> PageScan {
    page_at(children, children.len() as int)
}

/// Whether the deck child after position `k` exists and is a page; only
/// then does a page-break marker follow page `k`'s blocks.
pub open spec fn has_next_page(children: Seq<NodeModel>, k: int) -> bool {
    k + 1 < children.len() && children[k + 1].name == "page"@
}

/// What a walk over the deck's children has gathered.
#[verifier::ext_equal]
pub ghost struct DeckScan {
    pub pages: Seq<Seq<BlockModel>>,
    pub title: Option<Seq<char>>,
    pub warnings: Seq<MapWarningModel>,
}

pub open spec fn deck_at(children: Seq<NodeModel>, n: int) -> DeckScan
    decreases n,
{
    if n <= 0 {
        DeckScan { pages: Seq::empty(), title: None, warnings: Seq::empty() }
    } else {
        let prev = deck_at(children, n - 1);
        let c = children[n - 1];
        if c.name == "page"@ {
            let p = page_scan(c.children);
            let blocks = p.blocks + (if has_next_page(children, n - 1) {
                seq![BlockModel::PageBreak]
            } else {
                Seq::empty()
            });
            DeckScan {
                pages: prev.pages.push(blocks),
                title: match p.title {
                    Some(t) => Some(t),
                    None => prev.title,
                },
                warnings: prev.warnings + p.warnings,
            }
        } else {
            prev
        }
    }
}

pub open spec fn deck_scan(children: Seq<NodeModel>) -> DeckScan {
    deck_at(children, children.len() as int)
}

/// The deck a tree maps to. Only a root tagged `deck` contributes pages
/// and a title; any other root yields the empty deck, not an error.
pub open spec fn spec_map_deck(root: NodeModel, hint: Option<Seq<char>>) -> (DeckModelSpec, Seq<
    MapWarningModel,
>) {
    if root.name == "deck"@ {
        let scan = deck_scan(root.children);
        (
            DeckModelSpec {
                title: scan.title,
                paper: spec_paper(hint),
                margins: spec_margins(),
                pages: scan.pages,
            },
            scan.warnings,
        )
    } else {
        (
            DeckModelSpec {
                title: None,
                paper: spec_paper(hint),
                margins: spec_margins(),
                pages: Seq::empty(),
            },
            Seq::empty(),
        )
    }
}

/// Whether this node carries the given tag name.
fn tag_is(node: &Node, name: &str) -> (r: bool)
    ensures
        r == (node@.name == name@),
{
    str_eq(node.tag_name.as_str(), name)
}

/// Collects the entries of a `ul` or `ol` element.
fn collect_li_items(children: &Vec<Node>) -> (r: Vec<String>)
    ensures
        r@.map_values(|s: String| s@) == li_items(nodes_view(children@)),
{
    let ghost nv = nodes_view(children@);
    let mut items: Vec<String> = Vec::new();
    proof {
        assert(items@.map_values(|s: String| s@) =~= li_items_at(nv, 0));
    }
    let n = children.len();
    let mut i: usize = 0;
    while i < n
        invariant
            n == children@.len(),
            i <= n,
            nv == nodes_view(children@),
            items@.map_values(|s: String| s@) == li_items_at(nv, i as int),
        decreases n - i,
    {
        let item = &children[i];
        if tag_is(item, "li") {
            if let Some(text) = &item.text {
                items.push(text.clone());
            }
        }
        proof {
            assert(items@.map_values(|s: String| s@) =~= li_items_at(nv, i + 1 as int));
        }
        i = i + 1;
    }
    items
}

/// Walks an `image` element's children for a path and a scale.
fn scan_image_children(children: &Vec<Node>) -> (r: (Option<String>, u64, Vec<MapWarning>))
    ensures
        ({
            let sc = scan_image(nodes_view(children@));
            &&& (match r.0 {
                Some(p) => Some(p@),
                None => None,
            }) == sc.path
            &&& r.1 == sc.scale_thousandths
            &&& warnings_view(r.2@) == sc.warnings
        }),
{
    let ghost nv = nodes_view(children@);
    let mut img_path: Option<String> = None;
    let mut scale_value: u64 = DEFAULT_SCALE_THOUSANDTHS;
    let mut warnings: Vec<MapWarning> = Vec::new();
    proof {
        assert(warnings_view(warnings@) =~= scan_image_at(nv, 0).warnings);
    }
    let n = children.len();
    let mut i: usize = 0;
    while i < n
        invariant
            n == children@.len(),
            i <= n,
            nv == nodes_view(children@),
            (match img_path {
                Some(p) => Some(p@),
                None => None,
            }) == scan_image_at(nv, i as int).path,
            scale_value == scan_image_at(nv, i as int).scale_thousandths,
            warnings_view(warnings@) == scan_image_at(nv, i as int).warnings,
        decreases n - i,
    {
        let item = &children[i];
        if tag_is(item, "path") {
            if let Some(text) = &item.text {
                img_path = Some(text.clone());
            }
        } else if tag_is(item, "scale") {
            if let Some(text) = &item.text {
                match parse_scale(text.as_str()) {
                    Some(v) => {
                        scale_value = v;
                    },
                    None => {
                        warnings.push(MapWarning::UnparsableScale { text: text.clone() });
                    },
                }
            }
        }
        proof {
            assert(warnings_view(warnings@) =~= scan_image_at(nv, i + 1 as int).warnings);
        }
        i = i + 1;
    }
    (img_path, scale_value, warnings)
}

/// Maps one child of a page to its effect.
fn map_page_child(child: &Node) -> (r: (Option<Block>, Option<String>, Vec<MapWarning>))
    ensures
        ({
            let e = map_child(child@);
            &&& (match r.0 {
                Some(b) => Some(b@),
                None => None,
            }) == e.block
            &&& (match r.1 {
                Some(t) => Some(t@),
                None => None,
            }) == e.title
            &&& warnings_view(r.2@) == e.warnings
        }),
{
    proof {
        assert(warnings_view(Seq::<MapWarning>::empty()) =~= Seq::<MapWarningModel>::empty());
    }
    if tag_is(child, "title") {
        match &child.text {
            Some(text) => (
                Some(
                    Block::Heading {
                        text: text.clone(),
                        size: TITLE_FONT_SIZE,
                        bold: true,
                        centered: true,
                    },
                ),
                Some(text.clone()),
                Vec::new(),
            ),
            None => (None, None, Vec::new()),
        }
    } else if tag_is(child, "head") {
        match &child.text {
            Some(text) => (Some(Block::Subheading { text: text.clone() }), None, Vec::new()),
            None => (None, None, Vec::new()),
        }
    } else if tag_is(child, "text") {
        match &child.text {
            Some(text) => (
                Some(Block::Paragraph { text: text.clone(), size: BODY_FONT_SIZE }),
                None,
                Vec::new(),
            ),
            None => (None, None, Vec::new()),
        }
    } else if tag_is(child, "ul") {
        proof {
            lemma_children_view(*child);
        }
        let items = collect_li_items(&child.children);
        (Some(Block::BulletList { items }), None, Vec::new())
    } else if tag_is(child, "ol") {
        proof {
            lemma_children_view(*child);
        }
        let items = collect_li_items(&child.children);
        (Some(Block::NumberedList { items }), None, Vec::new())
    } else if tag_is(child, "br") {
        (Some(Block::LineBreak), None, Vec::new())
    } else if tag_is(child, "image") {
        proof {
            lemma_children_view(*child);
        }
        let (img_path, scale_value, warnings) = scan_image_children(&child.children);
        match img_path {
            Some(path) => (
                Some(Block::Image { path, scale_thousandths: scale_value }),
                None,
                warnings,
            ),
            None => (None, None, warnings),
        }
    } else {
        (None, None, Vec::new())
    }
}

/// Maps one page element: its blocks, the title it sets, its warnings.
fn map_page(page: &Node) -> (r: (Vec<Block>, Option<String>, Vec<MapWarning>))
    ensures
        ({
            let p = page_scan(nodes_view(page.children@));
            &&& r.0@.map_values(|b: Block| b@) == p.blocks
            &&& (match r.1 {
                Some(t) => Some(t@),
                None => None,
            }) == p.title
            &&& warnings_view(r.2@) == p.warnings
        }),
{
    let ghost nv = nodes_view(page.children@);
    let mut blocks: Vec<Block> = Vec::new();
    let mut title: Option<String> = None;
    let mut warnings: Vec<MapWarning> = Vec::new();
    proof {
        assert(blocks@.map_values(|b: Block| b@) =~= page_at(nv, 0).blocks);
        assert(warnings_view(warnings@) =~= page_at(nv, 0).warnings);
    }
    let n = page.children.len();
    let mut i: usize = 0;
    while i < n
        invariant
            n == page.children@.len(),
            i <= n,
            nv == nodes_view(page.children@),
            blocks@.map_values(|b: Block| b@) == page_at(nv, i as int).blocks,
            (match title {
                Some(t) => Some(t@),
                None => None,
            }) == page_at(nv, i as int).title,
            warnings_view(warnings@) == page_at(nv, i as int).warnings,
        decreases n - i,
    {
        let child = &page.children[i];
        let (block, child_title, mut child_warnings) = map_page_child(child);
        let ghost pre_warnings = warnings@;
        let ghost cw = child_warnings@;
        if let Some(b) = block {
            blocks.push(b);
        }
        if let Some(t) = child_title {
            title = Some(t);
        }
        warnings.append(&mut child_warnings);
        proof {
            assert(blocks@.map_values(|b: Block| b@) =~= page_at(nv, i + 1 as int).blocks);
            assert(warnings_view(warnings@) =~= warnings_view(pre_warnings) + warnings_view(cw));
            assert(warnings_view(warnings@) =~= page_at(nv, i + 1 as int).warnings);
        }
        i = i + 1;
    }
    (blocks, title, warnings)
}

/// Maps a finalized tree and a size hint to the deck model and the
/// warnings gathered along the way.
pub fn map_deck(root: &Node, size_hint: Option<&str>) -> (r: (DeckModel, Vec<MapWarning>))
    ensures
        ({
            let (m, w) = spec_map_deck(
                root@,
                match size_hint {
                    Some(h) => Some(h@),
                    None => None,
                },
            );
            &&& r.0@ == m
            &&& warnings_view(r.1@) == w
        }),
{
    let wide = match size_hint {
        Some(h) => str_eq(h, "wide"),
        None => false,
    };
    let paper = if wide {
        PaperSize { width_tenth_mm: WIDE_PAPER_WIDTH, height_tenth_mm: WIDE_PAPER_HEIGHT }
    } else {
        PaperSize { width_tenth_mm: DEFAULT_PAPER_WIDTH, height_tenth_mm: DEFAULT_PAPER_HEIGHT }
    };
    let margins = MarginBox {
        top_tenth_mm: MARGIN_TOP,
        right_tenth_mm: MARGIN_RIGHT,
        bottom_tenth_mm: MARGIN_BOTTOM,
        left_tenth_mm: MARGIN_LEFT,
    };

    let mut pages: Vec<Page> = Vec::new();
    let mut title: Option<String> = None;
    let mut warnings: Vec<MapWarning> = Vec::new();
    let ghost hint = (match size_hint {
        Some(h) => Some(h@),
        None => None,
    });
    let ghost nv = root@.children;

    if tag_is(root, "deck") {
        proof {
            lemma_children_view(*root);
            assert(pages@.map_values(|p: Page| p@) =~= deck_at(nv, 0).pages);
            assert(warnings_view(warnings@) =~= deck_at(nv, 0).warnings);
        }
        let n = root.children.len();
        let mut i: usize = 0;
        while i < n
            invariant
                n == root.children@.len(),
                i <= n,
                nv == nodes_view(root.children@),
                pages@.map_values(|p: Page| p@) == deck_at(nv, i as int).pages,
                (match title {
                    Some(t) => Some(t@),
                    None => None,
                }) == deck_at(nv, i as int).title,
                warnings_view(warnings@) == deck_at(nv, i as int).warnings,
            decreases n - i,
        {
            let child = &root.children[i];
            if tag_is(child, "page") {
                proof {
                    lemma_children_view(*child);
                }
                let (mut blocks, page_title, mut page_warnings) = map_page(child);
                let ghost content = blocks@.map_values(|b: Block| b@);
                let ghost pre_warnings = warnings@;
                let ghost pw = page_warnings@;
                if i + 1 < n && tag_is(&root.children[i + 1], "page") {
                    blocks.push(Block::PageBreak);
                    proof {
                        assert(blocks@.map_values(|b: Block| b@) =~= content + seq![
                            BlockModel::PageBreak,
                        ]);
                    }
                } else {
                    proof {
                        assert(blocks@.map_values(|b: Block| b@) =~= content + Seq::<
                            BlockModel,
                        >::empty());
                    }
                }
                pages.push(Page { blocks });
                if let Some(t) = page_title {
                    title = Some(t);
                }
                warnings.append(&mut page_warnings);
                proof {
                    assert(pages@.map_values(|p: Page| p@) =~= deck_at(nv, i + 1 as int).pages);
                    assert(warnings_view(warnings@) =~= warnings_view(pre_warnings)
                        + warnings_view(pw));
                    assert(warnings_view(warnings@) =~= deck_at(nv, i + 1 as int).warnings);
                }
            } else {
                proof {
                    assert(pages@.map_values(|p: Page| p@) =~= deck_at(nv, i + 1 as int).pages);
                }
            }
            i = i + 1;
        }
        let deck = DeckModel { title, paper, margins, pages };
        proof {
            assert(deck@.pages =~= spec_map_deck(root@, hint).0.pages);
            assert(deck@ =~~= spec_map_deck(root@, hint).0);
        }
        return (deck, warnings);
    }

    let deck = DeckModel { title, paper, margins, pages };
    proof {
        assert(deck@.pages =~= Seq::<Seq<BlockModel>>::empty());
        assert(warnings_view(warnings@) =~= Seq::<MapWarningModel>::empty());
        assert(deck@ =~~= spec_map_deck(root@, hint).0);
    }
    (deck, warnings)
}

} // verus!
