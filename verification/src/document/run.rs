//! Runs, what they hold, and the texts in them.

use crate::catalog::{
    lemma_kind_run, lemma_model_well_formed, model, schema, BREAK, CHARACTER_PROPERTY, DRAWING,
    RUN, TAB, TEXT,
};
use crate::decode::decode_element_spec;
use crate::document::break_::Break;
use crate::document::drawing::Drawing;
use crate::document::tab::Tab;
use crate::document::text::Text;
use crate::encode::{element_tokens, encode_element};
use crate::entity::{items_of, node_of_one, nodes_of, nodes_of_spec, Element, Entity};
use crate::error::{DecodeError, WriteError};
use crate::formatting::character_property::CharacterProperty;
use crate::laws::lemma_round_trip;
use crate::node::{Node, NodeView, Scalar};
use crate::schema::{
    Alternative, AlternativeView, Attribute, Cardinality, Content, Descriptor, DescriptorView,
    Name, NameView, Slot, SlotView,
};
use crate::token::Tok;
use crate::writer::Sink;
use vstd::prelude::*;
use vstd::std_specs::convert::IntoSpec;

verus! {

/// What a run can hold.
#[derive(Debug, PartialEq)]
pub enum RunContent {
    Text(Text),
    Break(Break),
    Tab(Tab),
    Drawing(Drawing),
}

impl Entity for RunContent {
    open spec fn accepts(kind: nat) -> bool {
        kind == TEXT || kind == BREAK || kind == TAB || kind == DRAWING
    }

    open spec fn node(&self) -> NodeView {
        match self {
            RunContent::Text(v) => v.node(),
            RunContent::Break(v) => v.node(),
            RunContent::Tab(v) => v.node(),
            RunContent::Drawing(v) => v.node(),
        }
    }

    proof fn lemma_node_conforms(&self) {
        match self {
            RunContent::Text(v) => {
                v.lemma_node_conforms();
            },
            RunContent::Break(v) => {
                v.lemma_node_conforms();
            },
            RunContent::Tab(v) => {
                v.lemma_node_conforms();
            },
            RunContent::Drawing(v) => {
                v.lemma_node_conforms();
            },
        }
    }

    fn to_node(&self) -> (n: Node) {
        match self {
            RunContent::Text(v) => v.to_node(),
            RunContent::Break(v) => v.to_node(),
            RunContent::Tab(v) => v.to_node(),
            RunContent::Drawing(v) => v.to_node(),
        }
    }

    fn from_node(n: &Node) -> (r: RunContent) {
        if n.kind == TEXT {
            RunContent::Text(Text::from_node(n))
        } else if n.kind == BREAK {
            RunContent::Break(Break::from_node(n))
        } else if n.kind == TAB {
            RunContent::Tab(Tab::from_node(n))
        } else {
            RunContent::Drawing(Drawing::from_node(n))
        }
    }
}

impl From<Text> for RunContent {
    fn from(v: Text) -> (r: RunContent) {
        RunContent::Text(v)
    }
}

impl vstd::std_specs::convert::FromSpecImpl<Text> for RunContent {
    open spec fn obeys_from_spec() -> bool {
        true
    }

    open spec fn from_spec(v: Text) -> RunContent {
        RunContent::Text(v)
    }
}

impl From<Break> for RunContent {
    fn from(v: Break) -> (r: RunContent) {
        RunContent::Break(v)
    }
}

impl vstd::std_specs::convert::FromSpecImpl<Break> for RunContent {
    open spec fn obeys_from_spec() -> bool {
        true
    }

    open spec fn from_spec(v: Break) -> RunContent {
        RunContent::Break(v)
    }
}

impl From<Tab> for RunContent {
    fn from(v: Tab) -> (r: RunContent) {
        RunContent::Tab(v)
    }
}

impl vstd::std_specs::convert::FromSpecImpl<Tab> for RunContent {
    open spec fn obeys_from_spec() -> bool {
        true
    }

    open spec fn from_spec(v: Tab) -> RunContent {
        RunContent::Tab(v)
    }
}

impl From<Drawing> for RunContent {
    fn from(v: Drawing) -> (r: RunContent) {
        RunContent::Drawing(v)
    }
}

impl vstd::std_specs::convert::FromSpecImpl<Drawing> for RunContent {
    open spec fn obeys_from_spec() -> bool {
        true
    }

    open spec fn from_spec(v: Drawing) -> RunContent {
        RunContent::Drawing(v)
    }
}

/// A run: a region of text with one set of properties.
#[derive(Debug, PartialEq)]
pub struct Run {
    /// the properties of the run; they apply to all that it holds
    pub property: CharacterProperty,
    /// what the run holds
    pub content: Vec<RunContent>,
}

impl Run {
    /// What the mapping knows of the element: its tag, its attributes and
    /// the slots of its children.
    pub open spec fn descriptor_spec() -> DescriptorView {
        DescriptorView {
            tag: NameView { prefix: "w"@, local: "r"@ },
            attributes: Seq::empty(),
            slots: seq![
                SlotView {
                    cardinality: Cardinality::Default,
                    alternatives: seq![
                        AlternativeView {
                            tag: NameView { prefix: "w"@, local: "rPr"@ },
                            kind: CHARACTER_PROPERTY as nat,
                        },
                    ],
                },
                SlotView {
                    cardinality: Cardinality::Many,
                    alternatives: seq![
                        AlternativeView {
                            tag: NameView { prefix: "w"@, local: "t"@ },
                            kind: TEXT as nat,
                        },
                        AlternativeView {
                            tag: NameView { prefix: "w"@, local: "br"@ },
                            kind: BREAK as nat,
                        },
                        AlternativeView {
                            tag: NameView { prefix: "w"@, local: "tab"@ },
                            kind: TAB as nat,
                        },
                        AlternativeView {
                            tag: NameView { prefix: "w"@, local: "drawing"@ },
                            kind: DRAWING as nat,
                        },
                    ],
                },
            ],
            content: Content::Children,
        }
    }

    /// What the mapping knows of the element.
    pub fn descriptor() -> (d: Descriptor)
        ensures
            d@ == Self::descriptor_spec(),
    {
        let attributes: Vec<Attribute> = Vec::new();
        let mut slots: Vec<Slot> = Vec::new();
        slots.push(Slot::one(Cardinality::Default, "w", "rPr", CHARACTER_PROPERTY));
        let mut alternatives1: Vec<Alternative> = Vec::new();
        alternatives1.push(Alternative::new("w", "t", TEXT));
        alternatives1.push(Alternative::new("w", "br", BREAK));
        alternatives1.push(Alternative::new("w", "tab", TAB));
        alternatives1.push(Alternative::new("w", "drawing", DRAWING));
        slots.push(Slot::many(alternatives1));
        let d = Descriptor {
            tag: Name::new("w", "r"),
            attributes,
            slots,
            content: Content::Children,
        };
        proof {
            let want = Self::descriptor_spec();
            assert(d@.attributes =~= want.attributes);
            assert(d@.slots[0].alternatives =~= want.slots[0].alternatives);
            assert(d@.slots[1].alternatives =~= want.slots[1].alternatives);
            assert(d@.slots =~= want.slots);
        }
        d
    }

    /// No two attributes of the element have the same name, and no two of its
    /// slots accept the same tag.
    pub proof fn lemma_descriptor_distinct()
        ensures
            Self::descriptor_spec().distinct(),
    {
        reveal_strlit("br");
        reveal_strlit("drawing");
        reveal_strlit("rPr");
        reveal_strlit("t");
        reveal_strlit("tab");
        reveal_strlit("w");
        assert("rPr"@.len() != "t"@.len());
        assert("rPr"@.len() != "br"@.len());
        assert("rPr"@[0] != "tab"@[0]);
        assert("rPr"@.len() != "drawing"@.len());
        assert("t"@.len() != "br"@.len());
        assert("t"@.len() != "tab"@.len());
        assert("t"@.len() != "drawing"@.len());
        assert("br"@.len() != "tab"@.len());
        assert("br"@.len() != "drawing"@.len());
        assert("tab"@.len() != "drawing"@.len());
    }
}

impl Entity for Run {
    open spec fn accepts(kind: nat) -> bool {
        kind == RUN
    }

    open spec fn node(&self) -> NodeView {
        NodeView {
            kind: RUN as nat,
            attributes: Seq::empty(),
            slots: seq![seq![self.property.node()], nodes_of_spec(self.content@)],
            text: Seq::empty(),
        }
    }

    proof fn lemma_node_conforms(&self) {
        lemma_kind_run();
        let dv = Self::descriptor_spec();
        let n = self.node();
        self.property.lemma_node_conforms();
        assert forall|j: int| 0 <= j < self.content@.len() implies (#[trigger] self.content@[j]).node().conforms(
            model(),
        ) && RunContent::accepts(self.content@[j].node().kind) by {
            self.content@[j].lemma_node_conforms();
        }
        assert(n.attributes_fit(model(), true));
        assert(n.slots_fit(model(), true));
        assert forall|i: int, j: int|
            0 <= i < n.slots.len() && 0 <= j < n.slots[i].len() implies dv.slots[i].accepts(
            (#[trigger] n.slots[i][j]).kind,
        ) by {
            if i == 0 {
                assert(CharacterProperty::accepts(n.slots[i][j].kind));
                assert(dv.slots[0].alternatives[0].kind == n.slots[i][j].kind);
            } else if i == 1 {
                assert(RunContent::accepts(n.slots[i][j].kind));
                if n.slots[i][j].kind == TEXT {
                    assert(dv.slots[1].alternatives[0].kind == n.slots[i][j].kind);
                } else if n.slots[i][j].kind == BREAK {
                    assert(dv.slots[1].alternatives[1].kind == n.slots[i][j].kind);
                } else if n.slots[i][j].kind == TAB {
                    assert(dv.slots[1].alternatives[2].kind == n.slots[i][j].kind);
                } else if n.slots[i][j].kind == DRAWING {
                    assert(dv.slots[1].alternatives[3].kind == n.slots[i][j].kind);
                }
            }
        }
        assert forall|i: int, j: int|
            0 <= i < n.slots.len() && 0 <= j < n.slots[i].len() implies (#[trigger] n.slots[i][j]).conforms(
            model(),
        ) by {
            if i == 0 {
                assert(n.slots[i][j].conforms(model()));
            } else if i == 1 {
                assert(n.slots[i][j] == self.content@[j].node());
            }
        }
        assert(n.children_fit(model()));
    }

    fn to_node(&self) -> (n: Node) {
        let attributes: Vec<Option<Scalar>> = Vec::new();
        let mut slots: Vec<Vec<Node>> = Vec::new();
        slots.push(node_of_one(&self.property));
        slots.push(nodes_of(&self.content));
        let n = Node { kind: RUN, attributes, slots, text: String::new() };
        proof {
            lemma_kind_run();
            let dv = Self::descriptor_spec();
            let want = self.node();
            assert(n@.attributes =~= want.attributes);
            assert(n@.slots[0] =~= want.slots[0]);
            assert(n@.slots[1] =~= want.slots[1]);
            assert(n@.slots =~= want.slots);
            assert(n@.text =~= want.text);
            self.lemma_node_conforms();
        }
        n
    }

    fn from_node(n: &Node) -> (r: Run) {
        proof {
            lemma_kind_run();
            let dv = Self::descriptor_spec();
            assert(n@.slots[0].len() == n.slots@[0]@.len());
            assert(n@.slots[1].len() == n.slots@[1]@.len());
            assert forall|j: int| 0 <= j < n.slots[0]@.len() implies (#[trigger] n.slots[0]@[j])@.conforms(
                model(),
            ) && CharacterProperty::accepts(n.slots[0]@[j]@.kind) by {
                assert(n@.slots[0][j] == n.slots[0]@[j]@);
                assert(dv.slots[0].accepts(n@.slots[0][j].kind));
            }
            assert forall|j: int| 0 <= j < n.slots[1]@.len() implies (#[trigger] n.slots[1]@[j])@.conforms(
                model(),
            ) && RunContent::accepts(n.slots[1]@[j]@.kind) by {
                assert(n@.slots[1][j] == n.slots[1]@[j]@);
                assert(dv.slots[1].accepts(n@.slots[1][j].kind));
            }
        }
        let r = Run {
            property: CharacterProperty::from_node(&n.slots[0][0]),
            content: items_of(&n.slots[1]),
        };
        proof {
            let got = r.node();
            assert(got.attributes =~= n@.attributes);
            assert(got.slots[0] =~= n@.slots[0]);
            assert(got.slots[1] =~= n@.slots[1]);
            assert(got.slots =~= n@.slots);
            assert(got.text =~= n@.text);
        }
        r
    }
}

impl Element for Run {
    open spec fn tokens(&self) -> Seq<Tok> {
        element_tokens(model(), self.node())
    }

    open spec fn kind_spec() -> nat {
        RUN as nat
    }

    proof fn lemma_kind() {
        lemma_kind_run();
    }

    fn kind() -> (k: usize) {
        proof {
            lemma_kind_run();
        }
        RUN
    }

    fn to_writer(&self, sink: &mut Sink) -> (r: Result<(), WriteError>) {
        let schema = schema();
        let node = self.to_node();
        encode_element(&schema, &node, sink)
    }
}

impl Run {
    /// The element that the default value stands for.
    pub open spec fn initial() -> NodeView {
        NodeView {
            kind: RUN as nat,
            attributes: Seq::empty(),
            slots: seq![seq![CharacterProperty::initial()], Seq::empty()],
            text: Seq::empty(),
        }
    }
}

impl Default for Run {
    fn default() -> (r: Run)
        ensures
            r.node() == Self::initial(),
    {
        let r = Run {
            property: CharacterProperty::default(),
            content: Vec::new(),
        };
        proof {
            let got = r.node();
            let want = Self::initial();
            assert(got.attributes =~= want.attributes);
            assert(got.slots[0] =~= want.slots[0]);
            assert(got.slots[1] =~= want.slots[1]);
            assert(got.slots =~= want.slots);
            assert(got.text =~= want.text);
        }
        r
    }
}

impl Run {
    /// The default stands for an element of the model, all of which is
    /// written.
    pub proof fn lemma_initial()
        ensures
            Self::initial().conforms(model()),
            Self::initial().written_back(model()),
            Self::initial().kind == RUN,
    {
        lemma_kind_run();
        let dv = Self::descriptor_spec();
        let n = Self::initial();
        CharacterProperty::lemma_initial();
        assert(n.attributes_fit(model(), true));
        assert(n.slots_fit(model(), true));
        assert forall|i: int, j: int|
            0 <= i < n.slots.len() && 0 <= j < n.slots[i].len() implies dv.slots[i].accepts(
            (#[trigger] n.slots[i][j]).kind,
        ) by {
            if i == 0 {
                assert(dv.slots[0].alternatives[0].kind == n.slots[i][j].kind);
            }
        }
        assert(n.children_fit(model()));
    }

    /// What is written of the default is read as the default.
    pub proof fn lemma_default_round_trip(rest: Seq<Tok>)
        ensures
            decode_element_spec(
                model(),
                RUN as nat,
                element_tokens(model(), Self::initial()).skip(1) + rest,
            ) == Ok::<_, DecodeError>((Self::initial(), rest)),
    {
        Self::lemma_initial();
        lemma_model_well_formed();
        lemma_round_trip(model(), Self::initial(), rest);
    }
}

impl Run {
    /// The same with `value` as its `property`.
    pub fn property(self, value: CharacterProperty) -> (r: Run)
        ensures
            r == (Run { property: value, ..self }),
    {
        let mut r = self;
        r.property = value;
        r
    }
}

/// The texts that the content of a run holds, in order.
pub open spec fn run_texts(content: Seq<RunContent>) -> Seq<Seq<char>>
    decreases content.len(),
{
    if content.len() == 0 {
        Seq::empty()
    } else {
        run_texts(content.drop_last()) + match content.last() {
            RunContent::Text(t) => seq![t.text@],
            _ => Seq::empty(),
        }
    }
}

/// The values of some texts, in order.
pub open spec fn text_views(texts: Seq<&String>) -> Seq<Seq<char>> {
    Seq::new(texts.len(), |i: int| texts[i]@)
}

impl Run {
    /// The same run with `content` behind what it holds.
    pub fn push<T: Into<RunContent>>(self, content: T) -> (r: Run)
        ensures
            T::obeys_into_spec() ==> r.content@ == self.content@.push(content.into_spec()),
            r.property == self.property,
    {
        let mut r = self;
        r.content.push(content.into());
        r
    }

    /// The same run with the text `content` behind what it holds.
    pub fn push_text(self, content: &str) -> (r: Run)
        ensures
            r.content@.len() == self.content@.len() + 1,
            r.content@.drop_last() == self.content@,
            r.content@.last() matches RunContent::Text(t) && t.text@ == content@ && t.space is None,
            r.property == self.property,
    {
        let mut r = self;
        r.content.push(RunContent::Text(Text { space: None, text: String::from_str(content) }));
        assert(r.content@.drop_last() =~= self.content@);
        r
    }

    /// Puts the texts of the run behind `texts`.
    pub fn collect_text<'a>(&'a self, texts: &mut Vec<&'a String>)
        ensures
            text_views(final(texts)@) == text_views(old(texts)@) + run_texts(self.content@),
    {
        let ghost before = text_views(texts@);
        assert(self.content@.take(0) =~= Seq::<RunContent>::empty());
        assert(before + run_texts(Seq::<RunContent>::empty()) =~= before);
        let mut i: usize = 0;
        while i < self.content.len()
            invariant
                i <= self.content.len(),
                before == text_views(old(texts)@),
                text_views(texts@) == before + run_texts(self.content@.take(i as int)),
            decreases self.content.len() - i,
        {
            let ghost sofar = text_views(texts@);
            proof {
                assert(self.content@.take(i + 1).drop_last() =~= self.content@.take(i as int));
            }
            match &self.content[i] {
                RunContent::Text(t) => {
                    texts.push(&t.text);
                    assert(text_views(texts@) =~= sofar + seq![t.text@]);
                    assert(before + (run_texts(self.content@.take(i as int)) + seq![t.text@])
                        =~= before + run_texts(self.content@.take(i as int)) + seq![t.text@]);
                },
                _ => {
                    assert(run_texts(self.content@.take(i as int)) + Seq::<Seq<char>>::empty()
                        =~= run_texts(self.content@.take(i as int)));
                },
            }
            i = i + 1;
        }
        assert(self.content@.take(i as int) =~= self.content@);
    }

    /// The texts that the run holds, in order.
    pub fn iter_text(&self) -> (r: Vec<&String>)
        ensures
            text_views(r@) == run_texts(self.content@),
    {
        let mut texts: Vec<&String> = Vec::new();
        assert(text_views(texts@) + run_texts(self.content@) =~= run_texts(self.content@));
        self.collect_text(&mut texts);
        texts
    }
}

/// Whether `after` is the run `before` with `text` in place of the text with
/// the index `index` among its texts, and with nothing else changed.
pub open spec fn run_with_text(before: Run, after: Run, index: int, text: String) -> bool {
    &&& after.property == before.property
    &&& exists|p: int|
        0 <= p < before.content@.len() && (#[trigger] before.content@[p]) is Text && run_texts(
            before.content@.take(p),
        ).len() == index && after.content@ == before.content@.update(
            p,
            RunContent::Text(Text { text, space: before.content@[p]->Text_0.space }),
        )
}

/// The texts of a run with one of them replaced are the texts of the run,
/// with that one replaced.
pub proof fn lemma_run_texts_update(content: Seq<RunContent>, j: int, item: RunContent)
    requires
        0 <= j < content.len(),
        content[j] is Text,
        item is Text,
    ensures
        run_texts(content.take(j)).len() < run_texts(content).len(),
        run_texts(content)[run_texts(content.take(j)).len() as int] == content[j]->Text_0.text@,
        run_texts(content.update(j, item)) == run_texts(content).update(
            run_texts(content.take(j)).len() as int,
            item->Text_0.text@,
        ),
    decreases content.len(),
{
    let last = content.len() - 1;
    let front = content.drop_last();
    if j == last {
        assert(content.take(j) =~= front);
        assert(content.update(j, item).drop_last() =~= front);
        assert(run_texts(content.update(j, item)) =~= run_texts(content).update(
            run_texts(front).len() as int,
            item->Text_0.text@,
        ));
    } else {
        lemma_run_texts_update(front, j, item);
        assert(front.take(j) =~= content.take(j));
        assert(content.update(j, item).drop_last() =~= front.update(j, item));
        assert(content.update(j, item).last() == content.last());
        assert(run_texts(content.update(j, item)) =~= run_texts(content).update(
            run_texts(content.take(j)).len() as int,
            item->Text_0.text@,
        ));
    }
}

impl Run {
    /// The place in the content of the text with the index `index` among the
    /// texts of the run, if there are so many.
    fn text_place(&self, index: usize) -> (r: Option<usize>)
        ensures
            match r {
                Some(j) => j < self.content@.len() && self.content@[j as int] is Text && run_texts(
                    self.content@.take(j as int),
                ).len() == index,
                None => run_texts(self.content@).len() <= index,
            },
    {
        let mut seen: usize = 0;
        let mut j: usize = 0;
        assert(self.content@.take(0) =~= Seq::<RunContent>::empty());
        while j < self.content.len()
            invariant
                j <= self.content.len(),
                seen <= index,
                seen == run_texts(self.content@.take(j as int)).len(),
            decreases self.content.len() - j,
        {
            proof {
                assert(self.content@.take(j + 1).drop_last() =~= self.content@.take(j as int));
            }
            match &self.content[j] {
                RunContent::Text(_) => {
                    if seen == index {
                        return Some(j);
                    }
                    seen = seen + 1;
                },
                _ => {},
            }
            j = j + 1;
        }
        assert(self.content@.take(j as int) =~= self.content@);
        None
    }

    /// The number of texts that the run holds.
    pub fn text_count(&self) -> (n: usize)
        ensures
            n == run_texts(self.content@).len(),
    {
        let mut n: usize = 0;
        let mut j: usize = 0;
        assert(self.content@.take(0) =~= Seq::<RunContent>::empty());
        while j < self.content.len()
            invariant
                j <= self.content.len(),
                n <= j,
                n == run_texts(self.content@.take(j as int)).len(),
            decreases self.content.len() - j,
        {
            proof {
                assert(self.content@.take(j + 1).drop_last() =~= self.content@.take(j as int));
            }
            match &self.content[j] {
                RunContent::Text(_) => {
                    n = n + 1;
                },
                _ => {},
            }
            j = j + 1;
        }
        assert(self.content@.take(j as int) =~= self.content@);
        n
    }

    /// The text with the index `index` among the texts of the run, to be
    /// changed in place; `None` where the run holds no more than `index`
    /// texts.
    pub fn iter_text_mut(&mut self, index: usize) -> (r: Option<&mut String>)
        ensures
            r is Some <==> index < run_texts(old(self).content@).len(),
            match r {
                Some(t) => (*t)@ == run_texts(old(self).content@)[index as int] && run_texts(
                    final(self).content@,
                ) == run_texts(old(self).content@).update(index as int, (*final(t))@)
                    && run_with_text(*old(self), *final(self), index as int, *final(t)),
                None => *final(self) == *old(self),
            },
    {
        match self.text_place(index) {
            None => None,
            Some(j) => {
                proof {
                    lemma_run_texts_update(self.content@, j as int, self.content@[j as int]);
                }
                let ghost before = self.content@;
                match &mut self.content[j] {
                    RunContent::Text(t) => {
                        let ghost space = t.space;
                        let r = &mut t.text;
                        proof {
                            let after = RunContent::Text(Text { text: *final(r), space });
                            lemma_run_texts_update(before, j as int, after);
                        }
                        Some(r)
                    },
                    _ => None,
                }
            },
        }
    }
}

} // verus!
