//! A table.

use crate::catalog::{
    lemma_kind_table, lemma_model_well_formed, model, schema, TABLE, TABLE_GRID, TABLE_PROPERTY,
    TABLE_ROW,
};
use crate::decode::decode_element_spec;
use crate::document::table_grid::TableGrid;
use crate::document::table_row::TableRow;
use crate::encode::{element_tokens, encode_element};
use crate::entity::{
    items_of, node_of_one, node_of_optional, nodes_of, nodes_of_spec, optional_node, optional_of,
    Element, Entity,
};
use crate::error::{DecodeError, WriteError};
use crate::formatting::table_property::TableProperty;
use crate::laws::lemma_round_trip;
use crate::node::{Node, NodeView, Scalar};
use crate::schema::{
    Alternative, AlternativeView, Attribute, Cardinality, Content, Descriptor, DescriptorView,
    Name, NameView, Slot, SlotView,
};
use crate::token::Tok;
use crate::writer::Sink;
use vstd::prelude::*;

verus! {

/// A table.
#[derive(Debug, PartialEq)]
pub struct Table {
    pub property: TableProperty,
    pub grid: Option<TableGrid>,
    pub rows: Vec<TableRow>,
}

impl Table {
    /// What the mapping knows of the element: its tag, its attributes and
    /// the slots of its children.
    pub open spec fn descriptor_spec() -> DescriptorView {
        DescriptorView {
            tag: NameView { prefix: "w"@, local: "tbl"@ },
            attributes: Seq::empty(),
            slots: seq![
                SlotView {
                    cardinality: Cardinality::Default,
                    alternatives: seq![
                        AlternativeView {
                            tag: NameView { prefix: "w"@, local: "tblPr"@ },
                            kind: TABLE_PROPERTY as nat,
                        },
                    ],
                },
                SlotView {
                    cardinality: Cardinality::Optional,
                    alternatives: seq![
                        AlternativeView {
                            tag: NameView { prefix: "w"@, local: "tblGrid"@ },
                            kind: TABLE_GRID as nat,
                        },
                    ],
                },
                SlotView {
                    cardinality: Cardinality::Many,
                    alternatives: seq![
                        AlternativeView {
                            tag: NameView { prefix: "w"@, local: "tr"@ },
                            kind: TABLE_ROW as nat,
                        },
                    ],
                },
            ],
            content: Content::Children,
        }
    }

    /// What the mapping knows of the element.
    pub fn descriptor() -> (d: Descriptor)
        ensures
            d@ == Self::descriptor_spec(),
    {
        let attributes: Vec<Attribute> = Vec::new();
        let mut slots: Vec<Slot> = Vec::new();
        slots.push(Slot::one(Cardinality::Default, "w", "tblPr", TABLE_PROPERTY));
        slots.push(Slot::one(Cardinality::Optional, "w", "tblGrid", TABLE_GRID));
        let mut alternatives2: Vec<Alternative> = Vec::new();
        alternatives2.push(Alternative::new("w", "tr", TABLE_ROW));
        slots.push(Slot::many(alternatives2));
        let d = Descriptor {
            tag: Name::new("w", "tbl"),
            attributes,
            slots,
            content: Content::Children,
        };
        proof {
            let want = Self::descriptor_spec();
            assert(d@.attributes =~= want.attributes);
            assert(d@.slots[0].alternatives =~= want.slots[0].alternatives);
            assert(d@.slots[1].alternatives =~= want.slots[1].alternatives);
            assert(d@.slots[2].alternatives =~= want.slots[2].alternatives);
            assert(d@.slots =~= want.slots);
        }
        d
    }

    /// No two attributes of the element have the same name, and no two of its
    /// slots accept the same tag.
    pub proof fn lemma_descriptor_distinct()
        ensures
            Self::descriptor_spec().distinct(),
    {
        reveal_strlit("tblGrid");
        reveal_strlit("tblPr");
        reveal_strlit("tr");
        reveal_strlit("w");
        assert("tblPr"@.len() != "tblGrid"@.len());
        assert("tblPr"@.len() != "tr"@.len());
        assert("tblGrid"@.len() != "tr"@.len());
    }
}

impl Entity for Table {
    open spec fn accepts(kind: nat) -> bool {
        kind == TABLE
    }

    open spec fn node(&self) -> NodeView {
        NodeView {
            kind: TABLE as nat,
            attributes: Seq::empty(),
            slots: seq![seq![self.property.node()], optional_node(self.grid), nodes_of_spec(self.rows@)],
            text: Seq::empty(),
        }
    }

    proof fn lemma_node_conforms(&self) {
        lemma_kind_table();
        let dv = Self::descriptor_spec();
        let n = self.node();
        self.property.lemma_node_conforms();
        match self.grid {
            Some(child) => {
                child.lemma_node_conforms();
            },
            None => {},
        }
        assert forall|j: int| 0 <= j < self.rows@.len() implies (#[trigger] self.rows@[j]).node().conforms(
            model(),
        ) && TableRow::accepts(self.rows@[j].node().kind) by {
            self.rows@[j].lemma_node_conforms();
        }
        assert(n.attributes_fit(model(), true));
        assert(n.slots_fit(model(), true));
        assert forall|i: int, j: int|
            0 <= i < n.slots.len() && 0 <= j < n.slots[i].len() implies dv.slots[i].accepts(
            (#[trigger] n.slots[i][j]).kind,
        ) by {
            if i == 0 {
                assert(TableProperty::accepts(n.slots[i][j].kind));
                assert(dv.slots[0].alternatives[0].kind == n.slots[i][j].kind);
            } else if i == 1 {
                assert(TableGrid::accepts(n.slots[i][j].kind));
                assert(dv.slots[1].alternatives[0].kind == n.slots[i][j].kind);
            } else if i == 2 {
                assert(TableRow::accepts(n.slots[i][j].kind));
                assert(dv.slots[2].alternatives[0].kind == n.slots[i][j].kind);
            }
        }
        assert forall|i: int, j: int|
            0 <= i < n.slots.len() && 0 <= j < n.slots[i].len() implies (#[trigger] n.slots[i][j]).conforms(
            model(),
        ) by {
            if i == 0 {
                assert(n.slots[i][j].conforms(model()));
            } else if i == 1 {
                assert(n.slots[i][j].conforms(model()));
            } else if i == 2 {
                assert(n.slots[i][j] == self.rows@[j].node());
            }
        }
        assert(n.children_fit(model()));
    }

    fn to_node(&self) -> (n: Node) {
        let attributes: Vec<Option<Scalar>> = Vec::new();
        let mut slots: Vec<Vec<Node>> = Vec::new();
        slots.push(node_of_one(&self.property));
        slots.push(node_of_optional(&self.grid));
        slots.push(nodes_of(&self.rows));
        let n = Node { kind: TABLE, attributes, slots, text: String::new() };
        proof {
            lemma_kind_table();
            let dv = Self::descriptor_spec();
            let want = self.node();
            assert(n@.attributes =~= want.attributes);
            assert(n@.slots[0] =~= want.slots[0]);
            assert(n@.slots[1] =~= want.slots[1]);
            assert(n@.slots[2] =~= want.slots[2]);
            assert(n@.slots =~= want.slots);
            assert(n@.text =~= want.text);
            self.lemma_node_conforms();
        }
        n
    }

    fn from_node(n: &Node) -> (r: Table) {
        proof {
            lemma_kind_table();
            let dv = Self::descriptor_spec();
            assert(n@.slots[0].len() == n.slots@[0]@.len());
            assert(n@.slots[1].len() == n.slots@[1]@.len());
            assert(n@.slots[2].len() == n.slots@[2]@.len());
            assert forall|j: int| 0 <= j < n.slots[0]@.len() implies (#[trigger] n.slots[0]@[j])@.conforms(
                model(),
            ) && TableProperty::accepts(n.slots[0]@[j]@.kind) by {
                assert(n@.slots[0][j] == n.slots[0]@[j]@);
                assert(dv.slots[0].accepts(n@.slots[0][j].kind));
            }
            assert forall|j: int| 0 <= j < n.slots[1]@.len() implies (#[trigger] n.slots[1]@[j])@.conforms(
                model(),
            ) && TableGrid::accepts(n.slots[1]@[j]@.kind) by {
                assert(n@.slots[1][j] == n.slots[1]@[j]@);
                assert(dv.slots[1].accepts(n@.slots[1][j].kind));
            }
            assert forall|j: int| 0 <= j < n.slots[2]@.len() implies (#[trigger] n.slots[2]@[j])@.conforms(
                model(),
            ) && TableRow::accepts(n.slots[2]@[j]@.kind) by {
                assert(n@.slots[2][j] == n.slots[2]@[j]@);
                assert(dv.slots[2].accepts(n@.slots[2][j].kind));
            }
        }
        let r = Table {
            property: TableProperty::from_node(&n.slots[0][0]),
            grid: optional_of(&n.slots[1]),
            rows: items_of(&n.slots[2]),
        };
        proof {
            let got = r.node();
            assert(got.attributes =~= n@.attributes);
            assert(got.slots[0] =~= n@.slots[0]);
            assert(got.slots[1] =~= n@.slots[1]);
            assert(got.slots[2] =~= n@.slots[2]);
            assert(got.slots =~= n@.slots);
            assert(got.text =~= n@.text);
        }
        r
    }
}

impl Element for Table {
    open spec fn tokens(&self) -> Seq<Tok> {
        element_tokens(model(), self.node())
    }

    open spec fn kind_spec() -> nat {
        TABLE as nat
    }

    proof fn lemma_kind() {
        lemma_kind_table();
    }

    fn kind() -> (k: usize) {
        proof {
            lemma_kind_table();
        }
        TABLE
    }

    fn to_writer(&self, sink: &mut Sink) -> (r: Result<(), WriteError>) {
        let schema = schema();
        let node = self.to_node();
        encode_element(&schema, &node, sink)
    }
}

impl Table {
    /// The element that the default value stands for.
    pub open spec fn initial() -> NodeView {
        NodeView {
            kind: TABLE as nat,
            attributes: Seq::empty(),
            slots: seq![seq![TableProperty::initial()], Seq::empty(), Seq::empty()],
            text: Seq::empty(),
        }
    }
}

impl Default for Table {
    fn default() -> (r: Table)
        ensures
            r.node() == Self::initial(),
    {
        let r = Table {
            property: TableProperty::default(),
            grid: None,
            rows: Vec::new(),
        };
        proof {
            let got = r.node();
            let want = Self::initial();
            assert(got.attributes =~= want.attributes);
            assert(got.slots[0] =~= want.slots[0]);
            assert(got.slots[1] =~= want.slots[1]);
            assert(got.slots[2] =~= want.slots[2]);
            assert(got.slots =~= want.slots);
            assert(got.text =~= want.text);
        }
        r
    }
}

impl Table {
    /// The default stands for an element of the model, all of which is
    /// written.
    pub proof fn lemma_initial()
        ensures
            Self::initial().conforms(model()),
            Self::initial().written_back(model()),
            Self::initial().kind == TABLE,
    {
        lemma_kind_table();
        let dv = Self::descriptor_spec();
        let n = Self::initial();
        TableProperty::lemma_initial();
        assert(n.attributes_fit(model(), true));
        assert(n.slots_fit(model(), true));
        assert forall|i: int, j: int|
            0 <= i < n.slots.len() && 0 <= j < n.slots[i].len() implies dv.slots[i].accepts(
            (#[trigger] n.slots[i][j]).kind,
        ) by {
            if i == 0 {
                assert(dv.slots[0].alternatives[0].kind == n.slots[i][j].kind);
            }
        }
        assert(n.children_fit(model()));
    }

    /// What is written of the default is read as the default.
    pub proof fn lemma_default_round_trip(rest: Seq<Tok>)
        ensures
            decode_element_spec(
                model(),
                TABLE as nat,
                element_tokens(model(), Self::initial()).skip(1) + rest,
            ) == Ok::<_, DecodeError>((Self::initial(), rest)),
    {
        Self::lemma_initial();
        lemma_model_well_formed();
        lemma_round_trip(model(), Self::initial(), rest);
    }
}

impl Table {
    /// The same with `value` as its `property`.
    pub fn property(self, value: TableProperty) -> (r: Table)
        ensures
            r == (Table { property: value, ..self }),
    {
        let mut r = self;
        r.property = value;
        r
    }

    /// The same with `value` as its `grid`.
    pub fn grid(self, value: TableGrid) -> (r: Table)
        ensures
            r == (Table { grid: Some(value), ..self }),
    {
        let mut r = self;
        r.grid = Some(value);
        r
    }
}

} // verus!
