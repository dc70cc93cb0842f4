//! The grid of a table: its columns.

use crate::catalog::{
    lemma_kind_table_grid, lemma_model_well_formed, model, schema, GRID_COLUMN, TABLE_GRID,
};
use crate::decode::decode_element_spec;
use crate::document::grid_column::GridColumn;
use crate::encode::{element_tokens, encode_element};
use crate::entity::{items_of, nodes_of, nodes_of_spec, Element, Entity};
use crate::error::{DecodeError, WriteError};
use crate::laws::lemma_round_trip;
use crate::node::{Node, NodeView, Scalar};
use crate::schema::{
    Alternative, AlternativeView, Attribute, Cardinality, Content, Descriptor, DescriptorView,
    Name, NameView, Slot, SlotView,
};
use crate::token::Tok;
use crate::writer::Sink;
use vstd::prelude::*;
use vstd::std_specs::convert::IntoSpec;

verus! {

/// The grid of a table: its columns.
#[derive(Debug, PartialEq)]
pub struct TableGrid {
    pub columns: Vec<GridColumn>,
}

impl TableGrid {
    /// What the mapping knows of the element: its tag, its attributes and
    /// the slots of its children.
    pub open spec fn descriptor_spec() -> DescriptorView {
        DescriptorView {
            tag: NameView { prefix: "w"@, local: "tblGrid"@ },
            attributes: Seq::empty(),
            slots: seq![
                SlotView {
                    cardinality: Cardinality::Many,
                    alternatives: seq![
                        AlternativeView {
                            tag: NameView { prefix: "w"@, local: "gridCol"@ },
                            kind: GRID_COLUMN as nat,
                        },
                    ],
                },
            ],
            content: Content::Children,
        }
    }

    /// What the mapping knows of the element.
    pub fn descriptor() -> (d: Descriptor)
        ensures
            d@ == Self::descriptor_spec(),
    {
        let attributes: Vec<Attribute> = Vec::new();
        let mut slots: Vec<Slot> = Vec::new();
        let mut alternatives0: Vec<Alternative> = Vec::new();
        alternatives0.push(Alternative::new("w", "gridCol", GRID_COLUMN));
        slots.push(Slot::many(alternatives0));
        let d = Descriptor {
            tag: Name::new("w", "tblGrid"),
            attributes,
            slots,
            content: Content::Children,
        };
        proof {
            let want = Self::descriptor_spec();
            assert(d@.attributes =~= want.attributes);
            assert(d@.slots[0].alternatives =~= want.slots[0].alternatives);
            assert(d@.slots =~= want.slots);
        }
        d
    }

    /// No two attributes of the element have the same name, and no two of its
    /// slots accept the same tag.
    pub proof fn lemma_descriptor_distinct()
        ensures
            Self::descriptor_spec().distinct(),
    {
    }
}

impl Entity for TableGrid {
    open spec fn accepts(kind: nat) -> bool {
        kind == TABLE_GRID
    }

    open spec fn node(&self) -> NodeView {
        NodeView {
            kind: TABLE_GRID as nat,
            attributes: Seq::empty(),
            slots: seq![nodes_of_spec(self.columns@)],
            text: Seq::empty(),
        }
    }

    proof fn lemma_node_conforms(&self) {
        lemma_kind_table_grid();
        let dv = Self::descriptor_spec();
        let n = self.node();
        assert forall|j: int| 0 <= j < self.columns@.len() implies (#[trigger] self.columns@[j]).node().conforms(
            model(),
        ) && GridColumn::accepts(self.columns@[j].node().kind) by {
            self.columns@[j].lemma_node_conforms();
        }
        assert(n.attributes_fit(model(), true));
        assert(n.slots_fit(model(), true));
        assert forall|i: int, j: int|
            0 <= i < n.slots.len() && 0 <= j < n.slots[i].len() implies dv.slots[i].accepts(
            (#[trigger] n.slots[i][j]).kind,
        ) by {
            if i == 0 {
                assert(GridColumn::accepts(n.slots[i][j].kind));
                assert(dv.slots[0].alternatives[0].kind == n.slots[i][j].kind);
            }
        }
        assert forall|i: int, j: int|
            0 <= i < n.slots.len() && 0 <= j < n.slots[i].len() implies (#[trigger] n.slots[i][j]).conforms(
            model(),
        ) by {
            if i == 0 {
                assert(n.slots[i][j] == self.columns@[j].node());
            }
        }
        assert(n.children_fit(model()));
    }

    fn to_node(&self) -> (n: Node) {
        let attributes: Vec<Option<Scalar>> = Vec::new();
        let mut slots: Vec<Vec<Node>> = Vec::new();
        slots.push(nodes_of(&self.columns));
        let n = Node { kind: TABLE_GRID, attributes, slots, text: String::new() };
        proof {
            lemma_kind_table_grid();
            let dv = Self::descriptor_spec();
            let want = self.node();
            assert(n@.attributes =~= want.attributes);
            assert(n@.slots[0] =~= want.slots[0]);
            assert(n@.slots =~= want.slots);
            assert(n@.text =~= want.text);
            self.lemma_node_conforms();
        }
        n
    }

    fn from_node(n: &Node) -> (r: TableGrid) {
        proof {
            lemma_kind_table_grid();
            let dv = Self::descriptor_spec();
            assert(n@.slots[0].len() == n.slots@[0]@.len());
            assert forall|j: int| 0 <= j < n.slots[0]@.len() implies (#[trigger] n.slots[0]@[j])@.conforms(
                model(),
            ) && GridColumn::accepts(n.slots[0]@[j]@.kind) by {
                assert(n@.slots[0][j] == n.slots[0]@[j]@);
                assert(dv.slots[0].accepts(n@.slots[0][j].kind));
            }
        }
        let r = TableGrid {
            columns: items_of(&n.slots[0]),
        };
        proof {
            let got = r.node();
            assert(got.attributes =~= n@.attributes);
            assert(got.slots[0] =~= n@.slots[0]);
            assert(got.slots =~= n@.slots);
            assert(got.text =~= n@.text);
        }
        r
    }
}

impl Element for TableGrid {
    open spec fn tokens(&self) -> Seq<Tok> {
        element_tokens(model(), self.node())
    }

    open spec fn kind_spec() -> nat {
        TABLE_GRID as nat
    }

    proof fn lemma_kind() {
        lemma_kind_table_grid();
    }

    fn kind() -> (k: usize) {
        proof {
            lemma_kind_table_grid();
        }
        TABLE_GRID
    }

    fn to_writer(&self, sink: &mut Sink) -> (r: Result<(), WriteError>) {
        let schema = schema();
        let node = self.to_node();
        encode_element(&schema, &node, sink)
    }
}

impl TableGrid {
    /// The element that the default value stands for.
    pub open spec fn initial() -> NodeView {
        NodeView {
            kind: TABLE_GRID as nat,
            attributes: Seq::empty(),
            slots: seq![Seq::empty()],
            text: Seq::empty(),
        }
    }
}

impl Default for TableGrid {
    fn default() -> (r: TableGrid)
        ensures
            r.node() == Self::initial(),
    {
        let r = TableGrid {
            columns: Vec::new(),
        };
        proof {
            let got = r.node();
            let want = Self::initial();
            assert(got.attributes =~= want.attributes);
            assert(got.slots[0] =~= want.slots[0]);
            assert(got.slots =~= want.slots);
            assert(got.text =~= want.text);
        }
        r
    }
}

impl TableGrid {
    /// The default stands for an element of the model, all of which is
    /// written.
    pub proof fn lemma_initial()
        ensures
            Self::initial().conforms(model()),
            Self::initial().written_back(model()),
            Self::initial().kind == TABLE_GRID,
    {
        lemma_kind_table_grid();
        let dv = Self::descriptor_spec();
        let n = Self::initial();
        assert(n.attributes_fit(model(), true));
        assert(n.slots_fit(model(), true));
        assert forall|i: int, j: int|
            0 <= i < n.slots.len() && 0 <= j < n.slots[i].len() implies dv.slots[i].accepts(
            (#[trigger] n.slots[i][j]).kind,
        ) by {
        }
        assert(n.children_fit(model()));
    }

    /// What is written of the default is read as the default.
    pub proof fn lemma_default_round_trip(rest: Seq<Tok>)
        ensures
            decode_element_spec(
                model(),
                TABLE_GRID as nat,
                element_tokens(model(), Self::initial()).skip(1) + rest,
            ) == Ok::<_, DecodeError>((Self::initial(), rest)),
    {
        Self::lemma_initial();
        lemma_model_well_formed();
        lemma_round_trip(model(), Self::initial(), rest);
    }
}

impl TableGrid {
    /// The same grid with `col` as one more column.
    pub fn push_column<T: Into<GridColumn>>(self, col: T) -> (r: TableGrid)
        ensures
            T::obeys_into_spec() ==> r.columns@ == self.columns@.push(col.into_spec()),
    {
        let mut r = self;
        r.columns.push(col.into());
        r
    }

    /// The widths of the columns, in order.
    pub open spec fn widths(self) -> Seq<usize> {
        Seq::new(self.columns@.len(), |i: int| self.columns@[i].width)
    }
}

impl TableGrid {
    /// The grid with one column of each of the widths `cols`, in order.
    pub fn from(cols: Vec<usize>) -> (r: TableGrid)
        ensures
            r.widths() == cols@,
    {
        let mut columns: Vec<GridColumn> = Vec::new();
        let mut i: usize = 0;
        while i < cols.len()
            invariant
                i <= cols.len(),
                columns.len() == i,
                forall|j: int| 0 <= j < i ==> (#[trigger] columns@[j]).width == cols@[j],
            decreases cols.len() - i,
        {
            columns.push(GridColumn { width: cols[i] });
            i = i + 1;
        }
        let r = TableGrid { columns };
        assert(r.widths() =~= cols@);
        r
    }
}

} // verus!
