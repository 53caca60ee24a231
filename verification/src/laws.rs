//! What holds of every stream: references go backwards, a cut stream does
//! not decode, and a tree is no larger than the stream it came from.
use vstd::prelude::*;
use crate::cursor::{
    available, spec_read_block, spec_read_i32, spec_read_i64, spec_read_string, spec_read_u16,
    spec_read_u32, spec_read_u64, spec_read_u8, u16_at,
};
use crate::decoder::{
    lemma_token_advances, spec_decode, spec_decode_end, spec_run, tree_outcome,
};
use crate::error::{error_at, DecodeError, ErrorKind};
use crate::pool::{spec_read_interned, PoolView, NEW_STRING};
use crate::token::{spec_next_token, spec_split_control, EventKind, SpecToken};
use crate::tree::{SpecBuilder, SpecElement, SpecNode, SpecStep, XmlNode};
use crate::value::{spec_decode_value, spec_read_bool, spec_read_strings, ValueType};

verus! {

/// Whether `short` is a beginning of `long`.
pub open spec fn is_prefix<T>(short: Seq<T>, long: Seq<T>) -> bool {
    short.len() <= long.len() && long.take(short.len() as int) == short
}

/// Decoding is a function of the bytes: what two runs of `decode` return
/// for buffers that hold the same bytes is the same tree or the same error.
pub proof fn law_decoding_is_deterministic(
    first: Seq<u8>,
    second: Seq<u8>,
    of_first: Result<XmlNode, DecodeError>,
    of_second: Result<XmlNode, DecodeError>,
)
    requires
        first == second,
        tree_outcome(of_first) == spec_decode(first),
        tree_outcome(of_second) == spec_decode(second),
    ensures
        tree_outcome(of_first) == tree_outcome(of_second),
{
}

/// A marker other than the one for a new string is an index into the pool as
/// it stands: it resolves to the string interned under it, and leaves the
/// pool alone; where the pool holds no such index, the reference is refused
/// at the offset of the marker.
pub proof fn law_reference_resolves_backwards(bytes: Seq<u8>, pos: int, pool: PoolView)
    requires
        available(bytes, pos, 2),
        u16_at(bytes, pos) != NEW_STRING,
    ensures
        u16_at(bytes, pos) < pool.len() ==> spec_read_interned(bytes, pos, pool) == Ok::<
            (Seq<char>, int, PoolView),
            DecodeError,
        >((pool[u16_at(bytes, pos)], pos + 2, pool)),
        u16_at(bytes, pos) >= pool.len() ==> spec_read_interned(bytes, pos, pool) == Err::<
            (Seq<char>, int, PoolView),
            DecodeError,
        >(error_at(ErrorKind::InvalidStringReference, pos)),
{
}

proof fn lemma_strings_keep_pool(bytes: Seq<u8>, pos: int, pool: PoolView, n: nat, acc: Seq<Seq<char>>)
    ensures
        spec_read_strings(bytes, pos, pool, n, acc) matches Ok((_, _, grown)) ==> is_prefix(
            pool,
            grown,
        ),
    decreases n,
{
    if n > 0 {
        match spec_read_interned(bytes, pos, pool) {
            Ok((s, next, mid)) => {
                lemma_strings_keep_pool(bytes, next, mid, (n - 1) as nat, acc.push(s));
                match spec_read_strings(bytes, next, mid, (n - 1) as nat, acc.push(s)) {
                    Ok((_, _, grown)) => {
                        assert(mid.take(pool.len() as int) =~= pool);
                        assert(grown.take(pool.len() as int) =~= mid.take(pool.len() as int));
                    },
                    Err(_) => {},
                }
            },
            Err(_) => {},
        }
    } else {
        assert(pool.take(pool.len() as int) =~= pool);
    }
}

/// The pool only grows at its end: whatever a record interns, the strings
/// interned before it keep their indices.
pub proof fn law_pool_is_append_only(bytes: Seq<u8>, pos: int, pool: PoolView)
    ensures
        spec_next_token(bytes, pos, pool) matches Ok((_, _, grown)) ==> is_prefix(pool, grown),
{
    assert(pool.take(pool.len() as int) =~= pool);
    assert(forall|s: Seq<char>| (#[trigger] pool.push(s)).take(pool.len() as int) =~= pool);
    match spec_read_u8(bytes, pos) {
        Ok((control, p)) => match spec_split_control(control) {
            Some((kind, ty)) => {
                if kind == EventKind::Attribute {
                    match spec_read_interned(bytes, p, pool) {
                        Ok((_, q, mid)) => {
                            if ty == ValueType::StringArray {
                                match spec_read_u16(bytes, q) {
                                    Ok((n, r)) => {
                                        lemma_strings_keep_pool(bytes, r, mid, n as nat, Seq::empty());
                                    },
                                    Err(_) => {},
                                }
                            }
                            match spec_decode_value(ty, bytes, q, mid) {
                                Ok((_, _, grown)) => {
                                    assert(grown.take(pool.len() as int) =~= mid.take(
                                        pool.len() as int,
                                    ));
                                },
                                Err(_) => {},
                            }
                        },
                        Err(_) => {},
                    }
                }
            },
            None => {},
        },
        Err(_) => {},
    }
}

/// How a read of the whole buffer and the same read of its first `cut`
/// bytes relate: a read that ends inside the cut is unchanged, one that
/// ends beyond it runs out of bytes, and one that fails still fails.
pub open spec fn cut_short<T>(
    whole: Result<(T, int), DecodeError>,
    short: Result<(T, int), DecodeError>,
    cut: int,
) -> bool {
    match whole {
        Ok((_, next)) => if next <= cut {
            short == whole
        } else {
            short matches Err(e) && e.kind == ErrorKind::UnexpectedEof
        },
        Err(_) => short is Err,
    }
}

/// The same for a read that goes through the pool.
pub open spec fn cut_short_pooled<T>(
    whole: Result<(T, int, PoolView), DecodeError>,
    short: Result<(T, int, PoolView), DecodeError>,
    cut: int,
) -> bool {
    match whole {
        Ok((_, next, _)) => if next <= cut {
            short == whole
        } else {
            short matches Err(e) && e.kind == ErrorKind::UnexpectedEof
        },
        Err(_) => short is Err,
    }
}

proof fn lemma_cut_reads(bytes: Seq<u8>, cut: int, pos: int)
    requires
        0 <= pos,
        0 <= cut <= bytes.len(),
    ensures
        cut_short(spec_read_u8(bytes, pos), spec_read_u8(bytes.take(cut), pos), cut),
        cut_short(spec_read_u16(bytes, pos), spec_read_u16(bytes.take(cut), pos), cut),
        cut_short(spec_read_u32(bytes, pos), spec_read_u32(bytes.take(cut), pos), cut),
        cut_short(spec_read_u64(bytes, pos), spec_read_u64(bytes.take(cut), pos), cut),
        cut_short(spec_read_i32(bytes, pos), spec_read_i32(bytes.take(cut), pos), cut),
        cut_short(spec_read_i64(bytes, pos), spec_read_i64(bytes.take(cut), pos), cut),
        cut_short(spec_read_bool(bytes, pos), spec_read_bool(bytes.take(cut), pos), cut),
        cut_short(spec_read_block(bytes, pos), spec_read_block(bytes.take(cut), pos), cut),
        cut_short(spec_read_string(bytes, pos), spec_read_string(bytes.take(cut), pos), cut),
{
    let short = bytes.take(cut);
    if pos + 2 <= cut {
        let n = u16_at(bytes, pos) as u16 as int;
        if pos + 2 + n <= cut {
            assert(short.subrange(pos + 2, pos + 2 + n) =~= bytes.subrange(pos + 2, pos + 2 + n));
        }
    }
}

proof fn lemma_cut_interned(bytes: Seq<u8>, cut: int, pos: int, pool: PoolView)
    requires
        0 <= pos,
        0 <= cut <= bytes.len(),
    ensures
        cut_short_pooled(
            spec_read_interned(bytes, pos, pool),
            spec_read_interned(bytes.take(cut), pos, pool),
            cut,
        ),
{
    lemma_cut_reads(bytes, cut, pos);
    lemma_cut_reads(bytes, cut, pos + 2);
}

proof fn lemma_cut_strings(
    bytes: Seq<u8>,
    cut: int,
    pos: int,
    pool: PoolView,
    n: nat,
    acc: Seq<Seq<char>>,
)
    requires
        0 <= pos <= cut <= bytes.len(),
    ensures
        cut_short_pooled(
            spec_read_strings(bytes, pos, pool, n, acc),
            spec_read_strings(bytes.take(cut), pos, pool, n, acc),
            cut,
        ),
    decreases n,
{
    if n > 0 {
        lemma_cut_interned(bytes, cut, pos, pool);
        match spec_read_interned(bytes, pos, pool) {
            Ok((s, next, grown)) => {
                crate::decoder::lemma_interned_advances(bytes, pos, pool);
                if pos <= bytes.len() {
                    crate::decoder::lemma_strings_advance(
                        bytes,
                        next,
                        grown,
                        (n - 1) as nat,
                        acc.push(s),
                    );
                }
                if next <= cut {
                    lemma_cut_strings(bytes, cut, next, grown, (n - 1) as nat, acc.push(s));
                }
            },
            Err(_) => {},
        }
    }
}

proof fn lemma_cut_value(ty: ValueType, bytes: Seq<u8>, cut: int, pos: int, pool: PoolView)
    requires
        0 <= pos <= cut <= bytes.len(),
    ensures
        cut_short_pooled(
            spec_decode_value(ty, bytes, pos, pool),
            spec_decode_value(ty, bytes.take(cut), pos, pool),
            cut,
        ),
{
    lemma_cut_reads(bytes, cut, pos);
    lemma_cut_interned(bytes, cut, pos, pool);
    if ty == ValueType::StringArray {
        match spec_read_u16(bytes, pos) {
            Ok((n, p)) => {
                crate::decoder::lemma_strings_advance(bytes, p, pool, n as nat, Seq::empty());
                if p <= cut {
                    lemma_cut_strings(bytes, cut, p, pool, n as nat, Seq::empty());
                }
            },
            Err(_) => {},
        }
    }
}

proof fn lemma_cut_token(bytes: Seq<u8>, cut: int, pos: int, pool: PoolView)
    requires
        0 <= pos,
        0 <= cut <= bytes.len(),
    ensures
        cut_short_pooled(
            spec_next_token(bytes, pos, pool),
            spec_next_token(bytes.take(cut), pos, pool),
            cut,
        ),
{
    lemma_cut_reads(bytes, cut, pos);
    lemma_cut_reads(bytes, cut, pos + 1);
    lemma_cut_interned(bytes, cut, pos + 1, pool);
    if pos < bytes.len() {
        match spec_split_control(bytes[pos]) {
            Some((kind, ty)) => {
                if kind == EventKind::Attribute {
                    match spec_read_interned(bytes, pos + 1, pool) {
                        Ok((_, p, grown)) => {
                            crate::decoder::lemma_interned_advances(bytes, pos + 1, pool);
                            crate::decoder::lemma_value_advances(ty, bytes, p, grown);
                            if p <= cut {
                                lemma_cut_value(ty, bytes, cut, p, grown);
                            }
                        },
                        Err(_) => {},
                    }
                }
            },
            None => {},
        }
    }
}

proof fn lemma_cut_run(bytes: Seq<u8>, cut: int, pos: int, pool: PoolView, builder: SpecBuilder)
    requires
        0 <= pos,
        0 <= cut <= bytes.len(),
        spec_run(bytes, pos, pool, builder) matches Ok((_, end)) && cut < end,
    ensures
        spec_run(bytes.take(cut), pos, pool, builder) matches Err(e) && e.kind
            == ErrorKind::UnexpectedEof,
    decreases bytes.len() - pos,
{
    lemma_cut_token(bytes, cut, pos, pool);
    lemma_token_advances(bytes, pos, pool);
    match spec_next_token(bytes, pos, pool) {
        Ok((token, next, grown)) => {
            if next <= cut {
                match builder.apply(token) {
                    Ok(SpecStep::Continue(state)) => {
                        lemma_cut_run(bytes, cut, next, grown, state);
                    },
                    _ => {},
                }
            }
        },
        Err(_) => {},
    }
}

proof fn lemma_longer_run(long: Seq<u8>, cut: int, pos: int, pool: PoolView, builder: SpecBuilder)
    requires
        0 <= pos,
        0 <= cut <= long.len(),
        spec_run(long.take(cut), pos, pool, builder) is Ok,
    ensures
        spec_run(long, pos, pool, builder) == spec_run(long.take(cut), pos, pool, builder),
    decreases cut - pos,
{
    let short = long.take(cut);
    lemma_cut_token(long, cut, pos, pool);
    lemma_token_advances(short, pos, pool);
    match spec_next_token(short, pos, pool) {
        Ok((token, next, grown)) => {
            match builder.apply(token) {
                Ok(SpecStep::Continue(state)) => {
                    lemma_longer_run(long, cut, next, grown, state);
                },
                _ => {},
            }
        },
        Err(_) => {},
    }
}

/// What follows the end of the document is ignored: a stream that decodes
/// still decodes with any bytes after it, to the same tree, and its
/// document ends at the same offset.
pub proof fn law_trailing_bytes_are_ignored(bytes: Seq<u8>, more: Seq<u8>)
    requires
        spec_decode(bytes) is Ok,
    ensures
        spec_decode_end(bytes + more) == spec_decode_end(bytes),
        spec_decode(bytes + more) == spec_decode(bytes),
{
    let long = bytes + more;
    let cut = bytes.len() as int;
    assert(long.take(cut) =~= bytes);
    assert(long.subrange(0, 4) =~= bytes.subrange(0, 4));
    lemma_longer_run(long, cut, 4, Seq::empty(), SpecBuilder::empty());
}

/// The offset just after the end-of-document record of a stream that
/// decodes, and 0 for one that does not.
pub open spec fn stream_end(bytes: Seq<u8>) -> int {
    match spec_decode_end(bytes) {
        Ok((_, end)) => end,
        Err(_) => 0,
    }
}

/// A stream that decodes does so no longer once it is cut anywhere before
/// the end of its end-of-document record: decoding the cut stream runs out
/// of bytes, and gives no tree.
pub proof fn law_cut_stream_runs_out(bytes: Seq<u8>, cut: int)
    requires
        spec_decode(bytes) is Ok,
        0 <= cut < stream_end(bytes),
    ensures
        spec_decode(bytes.take(cut)) matches Err(e) && e.kind == ErrorKind::UnexpectedEof,
{
    lemma_run_ends_inside(bytes, 4, Seq::empty(), SpecBuilder::empty());
    if cut >= 4 {
        assert(bytes.take(cut).subrange(0, 4) =~= bytes.subrange(0, 4));
        lemma_cut_run(bytes, cut, 4, Seq::empty(), SpecBuilder::empty());
    }
}

/// The number of nodes and attributes of a tree.
pub open spec fn node_count(node: SpecNode) -> nat
    decreases node,
{
    match node {
        SpecNode::Element(element) => 1 + element.attributes.len() + nodes_count(element.children),
        SpecNode::Text(_) => 1,
        SpecNode::CData(_) => 1,
    }
}

/// The number of nodes and attributes of the trees of a sequence.
pub open spec fn nodes_count(nodes: Seq<SpecNode>) -> nat
    decreases nodes,
{
    if nodes.len() == 0 {
        0
    } else {
        nodes_count(nodes.drop_last()) + node_count(nodes.last())
    }
}

spec fn stack_count(stack: Seq<SpecElement>) -> nat
    decreases stack.len(),
{
    if stack.len() == 0 {
        0
    } else {
        stack_count(stack.drop_last()) + node_count(SpecNode::Element(stack.last()))
    }
}

spec fn builder_count(builder: SpecBuilder) -> nat {
    stack_count(builder.stack) + match builder.root {
        Some(root) => node_count(SpecNode::Element(root)),
        None => 0,
    }
}

proof fn lemma_count_with_top(builder: SpecBuilder, top: SpecElement)
    requires
        builder.stack.len() > 0,
    ensures
        builder_count(builder.with_top(top)) + node_count(SpecNode::Element(builder.stack.last()))
            == builder_count(builder) + node_count(SpecNode::Element(top)),
{
    assert(builder.stack.drop_last().push(top).drop_last() =~= builder.stack.drop_last());
}

proof fn lemma_count_with_child(element: SpecElement, child: SpecNode)
    ensures
        node_count(SpecNode::Element(element.with_child(child))) == node_count(
            SpecNode::Element(element),
        ) + node_count(child),
{
    assert(element.children.push(child).drop_last() =~= element.children);
}

proof fn lemma_count_apply(builder: SpecBuilder, token: SpecToken)
    ensures
        match builder.apply(token) {
            Ok(SpecStep::Continue(state)) => builder_count(state) <= builder_count(builder) + 1,
            Ok(SpecStep::Finished(root)) => node_count(root) <= builder_count(builder),
            Err(_) => true,
        },
{
    if builder.stack.len() > 0 {
        let top = builder.stack.last();
        match token {
            SpecToken::StartTag(name) => {
                assert(builder.stack.push(SpecElement::named(name)).drop_last() =~= builder.stack);
            },
            SpecToken::Attribute(name, value) => {
                lemma_count_with_top(
                    builder,
                    top.with_attribute(crate::tree::SpecAttribute { name, value }),
                );
            },
            SpecToken::Text(content) => {
                lemma_count_with_top(builder, top.with_child(SpecNode::Text(content)));
                lemma_count_with_child(top, SpecNode::Text(content));
            },
            SpecToken::CData(content) => {
                lemma_count_with_top(builder, top.with_child(SpecNode::CData(content)));
                lemma_count_with_child(top, SpecNode::CData(content));
            },
            SpecToken::EndTag => {
                let rest = builder.stack.drop_last();
                if rest.len() > 0 {
                    let parent = rest.last();
                    let below = SpecBuilder { stack: rest, ..builder };
                    lemma_count_with_top(below, parent.with_child(SpecNode::Element(top)));
                    lemma_count_with_child(parent, SpecNode::Element(top));
                }
            },
            SpecToken::EndOfDocument => {},
        }
    } else {
        match token {
            SpecToken::StartTag(name) => {
                assert(builder.stack.push(SpecElement::named(name)).drop_last() =~= builder.stack);
            },
            _ => {},
        }
    }
}

proof fn lemma_run_ends_inside(bytes: Seq<u8>, pos: int, pool: PoolView, builder: SpecBuilder)
    requires
        0 <= pos,
    ensures
        spec_run(bytes, pos, pool, builder) matches Ok((root, end)) ==> pos < end <= bytes.len()
            && node_count(root) + pos <= builder_count(builder) + end,
    decreases bytes.len() - pos,
{
    lemma_token_advances(bytes, pos, pool);
    match spec_next_token(bytes, pos, pool) {
        Ok((token, next, grown)) => {
            lemma_count_apply(builder, token);
            match builder.apply(token) {
                Ok(SpecStep::Continue(state)) => {
                    lemma_run_ends_inside(bytes, next, grown, state);
                },
                _ => {},
            }
        },
        Err(_) => {},
    }
}

/// A tree is no larger than the stream it came from: every node and every
/// attribute took at least one byte of the records, which follow the four
/// bytes of the header and end inside the buffer.
pub proof fn law_tree_is_bounded_by_stream(bytes: Seq<u8>)
    ensures
        spec_decode_end(bytes) matches Ok((root, end)) ==> node_count(root) + 4 <= end
            <= bytes.len(),
{
    if bytes.len() >= 4 {
        lemma_run_ends_inside(bytes, 4, Seq::empty(), SpecBuilder::empty());
    }
}

/// Whatever the bytes, decoding ends in a tree whose root is an element, or
/// in an error that lies inside the buffer.
pub proof fn law_every_input_is_answered(bytes: Seq<u8>)
    ensures
        match spec_decode(bytes) {
            Ok(root) => root is Element,
            Err(e) => bytes.len() <= usize::MAX ==> e.offset <= bytes.len(),
        },
{
    if bytes.len() >= 4 {
        lemma_run_answers(bytes, 4, Seq::empty(), SpecBuilder::empty());
    }
}

proof fn lemma_run_answers(bytes: Seq<u8>, pos: int, pool: PoolView, builder: SpecBuilder)
    requires
        0 <= pos <= bytes.len(),
    ensures
        match spec_run(bytes, pos, pool, builder) {
            Ok((root, _)) => root is Element,
            Err(e) => bytes.len() <= usize::MAX ==> e.offset <= bytes.len(),
        },
    decreases bytes.len() - pos,
{
    lemma_token_advances(bytes, pos, pool);
    match spec_next_token(bytes, pos, pool) {
        Ok((token, next, grown)) => {
            match builder.apply(token) {
                Ok(SpecStep::Continue(state)) => {
                    lemma_run_answers(bytes, next, grown, state);
                },
                _ => {},
            }
        },
        Err(_) => {},
    }
}

} // verus!
