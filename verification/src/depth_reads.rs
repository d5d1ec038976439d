//! Reads ask for nothing but their parts.

use vstd::prelude::*;

use crate::ast::{Node, TokenKey, TokenRange};
use crate::depth::{agree, alike, alike_records, keys_nest, nests};
use crate::fragment::{let_get, let_set, EnumVariantNarrowing, Scope, SlotsView, SubLowering};
use crate::index::{dict_index, indexed, list_index, list_string_index};
use crate::ir::{sop, IrType, SimpleOp, TaggedOpView};
use crate::records::{record_ir_type, RecordLowering};
use crate::reference::{
    all_dynamic, behind_head, field_schema, field_walk, lone_index, payload_path, payload_read,
    row_chain, variable, walk_field, Frame, HeadView, IndexForm,
};
use crate::shape::field_index;
use crate::types::Schema;

verus! {

/// [`indexed`] asks for nothing but its parts.
pub broadcast proof fn lemma_indexed_agrees<L: SubLowering, H: SubLowering>(
    l: L,
    h: H,
    n: nat,
    index: Node,
    wide: bool,
    load: SimpleOp,
    ty: IrType,
    range: TokenRange,
    scope: Scope<'_>,
    at: SlotsView,
)
    requires
        #[trigger] agree(l, h, n),
        alike(l, h),
        nests(n, *index.expr),
    ensures
        #[trigger] indexed(
            l,
            index,
            wide,
            load,
            ty,
            range,
            scope,
            at,
        ) == #[trigger] indexed(
            h,
            index,
            wide,
            load,
            ty,
            range,
            scope,
            at,
        ),
{
}

/// [`list_index`] asks for nothing but its parts.
pub broadcast proof fn lemma_list_index_agrees<L: SubLowering, H: SubLowering>(
    l: L,
    h: H,
    n: nat,
    index: Node,
    recv_ty: IrType,
    range: TokenRange,
    scope: Scope<'_>,
    at: SlotsView,
)
    requires
        #[trigger] agree(l, h, n),
        alike(l, h),
        nests(n, *index.expr),
    ensures
        #[trigger] list_index(l, index, recv_ty, range, scope, at) == #[trigger] list_index(
            h,
            index,
            recv_ty,
            range,
            scope,
            at,
        ),
{
    broadcast use lemma_indexed_agrees;
}

/// [`list_string_index`] asks for nothing but its parts.
pub broadcast proof fn lemma_list_string_index_agrees<L: SubLowering, H: SubLowering>(
    l: L,
    h: H,
    n: nat,
    index: Node,
    range: TokenRange,
    scope: Scope<'_>,
    at: SlotsView,
)
    requires
        #[trigger] agree(l, h, n),
        alike(l, h),
        nests(n, *index.expr),
    ensures
        #[trigger] list_string_index(l, index, range, scope, at) == #[trigger] list_string_index(
            h,
            index,
            range,
            scope,
            at,
        ),
{
    broadcast use lemma_indexed_agrees;
}

/// [`dict_index`] asks for nothing but its parts.
pub broadcast proof fn lemma_dict_index_agrees<L: SubLowering, H: SubLowering>(
    l: L,
    h: H,
    n: nat,
    index: Node,
    range: TokenRange,
    scope: Scope<'_>,
    at: SlotsView,
)
    requires
        #[trigger] agree(l, h, n),
        alike(l, h),
        nests(n, *index.expr),
    ensures
        #[trigger] dict_index(l, index, range, scope, at) == #[trigger] dict_index(
            h,
            index,
            range,
            scope,
            at,
        ),
{
}

/// [`payload_path`] asks for nothing but its parts.
pub broadcast proof fn lemma_payload_path_agrees<L: RecordLowering, H: RecordLowering>(
    l: L,
    h: H,
    n: nat,
    tail: Seq<TokenKey>,
    narrow: EnumVariantNarrowing<'_>,
    base: IrType,
    range: TokenRange,
    at: SlotsView,
)
    requires
        #[trigger] agree(l, h, n),
        alike_records(l, h),
    ensures
        #[trigger] payload_path(l, tail, narrow, base, range, at) == #[trigger] payload_path(
            h,
            tail,
            narrow,
            base,
            range,
            at,
        ),
{
    broadcast use lemma_payload_read_agrees;
}

/// [`payload_read`] asks for nothing but its parts.
pub broadcast proof fn lemma_payload_read_agrees<L: RecordLowering, H: RecordLowering>(
    l: L,
    h: H,
    n: nat,
    field: Seq<char>,
    narrow: EnumVariantNarrowing<'_>,
    base: IrType,
    range: TokenRange,
    at: SlotsView,
)
    requires
        #[trigger] agree(l, h, n),
        alike_records(l, h),
    ensures
        #[trigger] payload_read(l, field, narrow, base, range, at) == #[trigger] payload_read(
            h,
            field,
            narrow,
            base,
            range,
            at,
        ),
{
}

/// [`row_chain`] asks for nothing but its parts.
pub broadcast proof fn lemma_row_chain_agrees<L: SubLowering, H: SubLowering>(
    l: L,
    h: H,
    n: nat,
    path: Seq<TokenKey>,
    range: TokenRange,
    scope: Scope<'_>,
    done: Seq<TaggedOpView>,
    at: SlotsView,
    from: int,
)
    requires
        #[trigger] agree(l, h, n),
        alike(l, h),
        keys_nest(n, path),
    ensures
        #[trigger] row_chain(l, path, range, scope, done, at, from) == #[trigger] row_chain(
            h,
            path,
            range,
            scope,
            done,
            at,
            from,
        ),
    decreases path.len() - from,
{
    broadcast use lemma_list_index_agrees;

    if 0 <= from < path.len() {
        if let TokenKey::Dynamic(node, _) = path[from] {
            assert(nests(n, *node.expr));
            if let Ok(f) = list_index(l, node, IrType::ListInt, range, scope, at) {
                let handle = f.slots.lets;
                lemma_row_chain_agrees(
                    l,
                    h,
                    n,
                    path,
                    range,
                    scope,
                    done + f.ops,
                    f.slots,
                    from + 1,
                );
                lemma_row_chain_agrees(
                    l,
                    h,
                    n,
                    path,
                    range,
                    scope,
                    (done + f.ops).push(let_set(handle, IrType::ListInt, range)).push(
                        let_get(handle, IrType::ListInt, range),
                    ),
                    f.slots.after(1),
                    from + 1,
                );
            }
        }
    }
}

/// [`lone_index`] asks for nothing but its parts.
pub broadcast proof fn lemma_lone_index_agrees<L: SubLowering, H: SubLowering>(
    l: L,
    h: H,
    n: nat,
    form: IndexForm,
    node: Node,
    optional: bool,
    range: TokenRange,
    scope: Scope<'_>,
    at: SlotsView,
)
    requires
        #[trigger] agree(l, h, n),
        alike(l, h),
        nests(n, *node.expr),
    ensures
        #[trigger] lone_index(
            l,
            form,
            node,
            optional,
            range,
            scope,
            at,
        ) == #[trigger] lone_index(
            h,
            form,
            node,
            optional,
            range,
            scope,
            at,
        ),
{
    broadcast use {
        lemma_dict_index_agrees,
        lemma_list_index_agrees,
        lemma_list_string_index_agrees,
    };
}

/// [`field_walk`] asks for nothing but its parts.
pub broadcast proof fn lemma_field_walk_agrees<L: RecordLowering, H: RecordLowering>(
    l: L,
    h: H,
    n: nat,
    path: Seq<TokenKey>,
    range: TokenRange,
    schema: Option<Schema>,
    ty: IrType,
    done: Seq<TaggedOpView>,
    at: SlotsView,
    from: int,
)
    requires
        #[trigger] agree(l, h, n),
        alike_records(l, h),
    ensures
        #[trigger] field_walk(
            l,
            path,
            range,
            schema,
            ty,
            done,
            at,
            from,
        ) == #[trigger] field_walk(
            h,
            path,
            range,
            schema,
            ty,
            done,
            at,
            from,
        ),
    decreases path.len() - from,
{
    if 0 <= from < path.len() {
        if let Some(s) = schema {
            if let (Ok(field), Ok(layout)) = (walk_field(s, path[from]), l.layout(s)) {
                if let Some(i) = field_index(s.fields@, field, 0) {
                    if let Some(irt) = record_ir_type(s.fields@[i].ty) {
                        lemma_field_walk_agrees(
                            l,
                            h,
                            n,
                            path,
                            range,
                            field_schema(s.fields@[i].ty),
                            irt,
                            done.push(
                                sop(
                                    SimpleOp::LoadFieldAtAbsolute {
                                        offset: layout.fields[i].offset,
                                        ty: irt,
                                    },
                                    range,
                                ),
                            ),
                            at,
                            from + 1,
                        );
                    }
                }
            }
        }
    }
}

/// [`variable`] asks for nothing but its parts.
pub broadcast proof fn lemma_variable_agrees<L: RecordLowering, H: RecordLowering>(
    l: L,
    h: H,
    n: nat,
    frame: Frame<'_>,
    path: Seq<TokenKey>,
    range: TokenRange,
    scope: Scope<'_>,
    at: SlotsView,
)
    requires
        #[trigger] agree(l, h, n),
        alike_records(l, h),
        keys_nest(n, path),
    ensures
        #[trigger] variable(l, frame, path, range, scope, at) == #[trigger] variable(
            h,
            frame,
            path,
            range,
            scope,
            at,
        ),
{
    broadcast use lemma_behind_head_agrees;
}

/// [`behind_head`] asks for nothing but its parts.
pub broadcast proof fn lemma_behind_head_agrees<L: RecordLowering, H: RecordLowering>(
    l: L,
    h: H,
    n: nat,
    path: Seq<TokenKey>,
    range: TokenRange,
    scope: Scope<'_>,
    at: SlotsView,
    head: HeadView,
    narrowed: Option<EnumVariantNarrowing<'_>>,
)
    requires
        #[trigger] agree(l, h, n),
        alike_records(l, h),
        keys_nest(n, path),
    ensures
        #[trigger] behind_head(
            l,
            path,
            range,
            scope,
            at,
            head,
            narrowed,
        ) == #[trigger] behind_head(
            h,
            path,
            range,
            scope,
            at,
            head,
            narrowed,
        ),
{
    broadcast use {
        lemma_field_walk_agrees,
        lemma_lone_index_agrees,
        lemma_payload_path_agrees,
        lemma_row_chain_agrees,
    };

    if path.len() > 1 && all_dynamic(path) {
        assert(path[1] == path[1]);
    }
}

} // verus!
