//! Conversions of typed values into command arguments.
use crate::text::{decimal, signed_decimal, write_decimal, write_signed_decimal};
use crate::types::{blocks, flatten_blocks, lemma_flatten_step, NumericBehavior, ToRedisArgs};
use vstd::prelude::*;
use vstd::string::StrSliceExecFns;
use vstd::utf8::encode_utf8;

verus! {

/// One block that holds `b`.
fn one_block(b: Vec<u8>) -> (r: Vec<Vec<u8>>)
    ensures
        blocks(r@) == seq![b@],
{
    let mut r: Vec<Vec<u8>> = Vec::new();
    r.push(b);
    assert(blocks(r@) =~= seq![b@]);
    r
}

/// The text of a boolean.
pub open spec fn bool_text(b: bool) -> Seq<u8> {
    if b {
        seq![116u8, 114u8, 117u8, 101u8]
    } else {
        seq![102u8, 97u8, 108u8, 115u8, 101u8]
    }
}

impl ToRedisArgs for i8 {
    open spec fn arg_blocks(&self) -> Seq<Seq<u8>> {
        seq![signed_decimal(*self as int)]
    }

    open spec fn numeric(&self) -> NumericBehavior {
        NumericBehavior::NumericInteger
    }

    fn to_redis_args(&self) -> (r: Vec<Vec<u8>>) {
        let mut b: Vec<u8> = Vec::new();
        write_signed_decimal(&mut b, *self as i64);
        one_block(b)
    }

    fn describe_numberic_behavior(&self) -> (r: NumericBehavior) {
        NumericBehavior::NumericInteger
    }

    fn is_single_arg(&self) -> (r: bool) {
        true
    }

    fn make_arg_vec(items: &[Self]) -> (r: Vec<Vec<u8>>) {
        let ghost g = items@.map_values(|x: Self| x.arg_blocks());
        let mut rv: Vec<Vec<u8>> = Vec::new();
        let mut i: usize = 0;
        while i < items.len()
            invariant
                g == items@.map_values(|x: Self| x.arg_blocks()),
                i <= items@.len(),
                blocks(rv@) == flatten_blocks(g.subrange(0, i as int)),
            decreases items@.len() - i,
        {
            let mut b = items[i].to_redis_args();
            proof {
                lemma_flatten_step(g, i as int, rv@, b@);
            }
            rv.append(&mut b);
            i = i + 1;
        }
        proof {
            assert(g.subrange(0, i as int) =~= g);
        }
        rv
    }

    fn is_single_vec_arg(items: &[Self]) -> (r: bool) {
        items.len() == 1 && items[0].is_single_arg()
    }
}

impl ToRedisArgs for i16 {
    open spec fn arg_blocks(&self) -> Seq<Seq<u8>> {
        seq![signed_decimal(*self as int)]
    }

    open spec fn numeric(&self) -> NumericBehavior {
        NumericBehavior::NumericInteger
    }

    fn to_redis_args(&self) -> (r: Vec<Vec<u8>>) {
        let mut b: Vec<u8> = Vec::new();
        write_signed_decimal(&mut b, *self as i64);
        one_block(b)
    }

    fn describe_numberic_behavior(&self) -> (r: NumericBehavior) {
        NumericBehavior::NumericInteger
    }

    fn is_single_arg(&self) -> (r: bool) {
        true
    }

    fn make_arg_vec(items: &[Self]) -> (r: Vec<Vec<u8>>) {
        let ghost g = items@.map_values(|x: Self| x.arg_blocks());
        let mut rv: Vec<Vec<u8>> = Vec::new();
        let mut i: usize = 0;
        while i < items.len()
            invariant
                g == items@.map_values(|x: Self| x.arg_blocks()),
                i <= items@.len(),
                blocks(rv@) == flatten_blocks(g.subrange(0, i as int)),
            decreases items@.len() - i,
        {
            let mut b = items[i].to_redis_args();
            proof {
                lemma_flatten_step(g, i as int, rv@, b@);
            }
            rv.append(&mut b);
            i = i + 1;
        }
        proof {
            assert(g.subrange(0, i as int) =~= g);
        }
        rv
    }

    fn is_single_vec_arg(items: &[Self]) -> (r: bool) {
        items.len() == 1 && items[0].is_single_arg()
    }
}

impl ToRedisArgs for i32 {
    open spec fn arg_blocks(&self) -> Seq<Seq<u8>> {
        seq![signed_decimal(*self as int)]
    }

    open spec fn numeric(&self) -> NumericBehavior {
        NumericBehavior::NumericInteger
    }

    fn to_redis_args(&self) -> (r: Vec<Vec<u8>>) {
        let mut b: Vec<u8> = Vec::new();
        write_signed_decimal(&mut b, *self as i64);
        one_block(b)
    }

    fn describe_numberic_behavior(&self) -> (r: NumericBehavior) {
        NumericBehavior::NumericInteger
    }

    fn is_single_arg(&self) -> (r: bool) {
        true
    }

    fn make_arg_vec(items: &[Self]) -> (r: Vec<Vec<u8>>) {
        let ghost g = items@.map_values(|x: Self| x.arg_blocks());
        let mut rv: Vec<Vec<u8>> = Vec::new();
        let mut i: usize = 0;
        while i < items.len()
            invariant
                g == items@.map_values(|x: Self| x.arg_blocks()),
                i <= items@.len(),
                blocks(rv@) == flatten_blocks(g.subrange(0, i as int)),
            decreases items@.len() - i,
        {
            let mut b = items[i].to_redis_args();
            proof {
                lemma_flatten_step(g, i as int, rv@, b@);
            }
            rv.append(&mut b);
            i = i + 1;
        }
        proof {
            assert(g.subrange(0, i as int) =~= g);
        }
        rv
    }

    fn is_single_vec_arg(items: &[Self]) -> (r: bool) {
        items.len() == 1 && items[0].is_single_arg()
    }
}

impl ToRedisArgs for i64 {
    open spec fn arg_blocks(&self) -> Seq<Seq<u8>> {
        seq![signed_decimal(*self as int)]
    }

    open spec fn numeric(&self) -> NumericBehavior {
        NumericBehavior::NumericInteger
    }

    fn to_redis_args(&self) -> (r: Vec<Vec<u8>>) {
        let mut b: Vec<u8> = Vec::new();
        write_signed_decimal(&mut b, *self as i64);
        one_block(b)
    }

    fn describe_numberic_behavior(&self) -> (r: NumericBehavior) {
        NumericBehavior::NumericInteger
    }

    fn is_single_arg(&self) -> (r: bool) {
        true
    }

    fn make_arg_vec(items: &[Self]) -> (r: Vec<Vec<u8>>) {
        let ghost g = items@.map_values(|x: Self| x.arg_blocks());
        let mut rv: Vec<Vec<u8>> = Vec::new();
        let mut i: usize = 0;
        while i < items.len()
            invariant
                g == items@.map_values(|x: Self| x.arg_blocks()),
                i <= items@.len(),
                blocks(rv@) == flatten_blocks(g.subrange(0, i as int)),
            decreases items@.len() - i,
        {
            let mut b = items[i].to_redis_args();
            proof {
                lemma_flatten_step(g, i as int, rv@, b@);
            }
            rv.append(&mut b);
            i = i + 1;
        }
        proof {
            assert(g.subrange(0, i as int) =~= g);
        }
        rv
    }

    fn is_single_vec_arg(items: &[Self]) -> (r: bool) {
        items.len() == 1 && items[0].is_single_arg()
    }
}

impl ToRedisArgs for isize {
    open spec fn arg_blocks(&self) -> Seq<Seq<u8>> {
        seq![signed_decimal(*self as int)]
    }

    open spec fn numeric(&self) -> NumericBehavior {
        NumericBehavior::NumericInteger
    }

    fn to_redis_args(&self) -> (r: Vec<Vec<u8>>) {
        let mut b: Vec<u8> = Vec::new();
        write_signed_decimal(&mut b, *self as i64);
        one_block(b)
    }

    fn describe_numberic_behavior(&self) -> (r: NumericBehavior) {
        NumericBehavior::NumericInteger
    }

    fn is_single_arg(&self) -> (r: bool) {
        true
    }

    fn make_arg_vec(items: &[Self]) -> (r: Vec<Vec<u8>>) {
        let ghost g = items@.map_values(|x: Self| x.arg_blocks());
        let mut rv: Vec<Vec<u8>> = Vec::new();
        let mut i: usize = 0;
        while i < items.len()
            invariant
                g == items@.map_values(|x: Self| x.arg_blocks()),
                i <= items@.len(),
                blocks(rv@) == flatten_blocks(g.subrange(0, i as int)),
            decreases items@.len() - i,
        {
            let mut b = items[i].to_redis_args();
            proof {
                lemma_flatten_step(g, i as int, rv@, b@);
            }
            rv.append(&mut b);
            i = i + 1;
        }
        proof {
            assert(g.subrange(0, i as int) =~= g);
        }
        rv
    }

    fn is_single_vec_arg(items: &[Self]) -> (r: bool) {
        items.len() == 1 && items[0].is_single_arg()
    }
}

impl ToRedisArgs for u16 {
    open spec fn arg_blocks(&self) -> Seq<Seq<u8>> {
        seq![decimal(*self as nat)]
    }

    open spec fn numeric(&self) -> NumericBehavior {
        NumericBehavior::NumericInteger
    }

    fn to_redis_args(&self) -> (r: Vec<Vec<u8>>) {
        let mut b: Vec<u8> = Vec::new();
        write_decimal(&mut b, *self as u64);
        one_block(b)
    }

    fn describe_numberic_behavior(&self) -> (r: NumericBehavior) {
        NumericBehavior::NumericInteger
    }

    fn is_single_arg(&self) -> (r: bool) {
        true
    }

    fn make_arg_vec(items: &[Self]) -> (r: Vec<Vec<u8>>) {
        let ghost g = items@.map_values(|x: Self| x.arg_blocks());
        let mut rv: Vec<Vec<u8>> = Vec::new();
        let mut i: usize = 0;
        while i < items.len()
            invariant
                g == items@.map_values(|x: Self| x.arg_blocks()),
                i <= items@.len(),
                blocks(rv@) == flatten_blocks(g.subrange(0, i as int)),
            decreases items@.len() - i,
        {
            let mut b = items[i].to_redis_args();
            proof {
                lemma_flatten_step(g, i as int, rv@, b@);
            }
            rv.append(&mut b);
            i = i + 1;
        }
        proof {
            assert(g.subrange(0, i as int) =~= g);
        }
        rv
    }

    fn is_single_vec_arg(items: &[Self]) -> (r: bool) {
        items.len() == 1 && items[0].is_single_arg()
    }
}

impl ToRedisArgs for u32 {
    open spec fn arg_blocks(&self) -> Seq<Seq<u8>> {
        seq![decimal(*self as nat)]
    }

    open spec fn numeric(&self) -> NumericBehavior {
        NumericBehavior::NumericInteger
    }

    fn to_redis_args(&self) -> (r: Vec<Vec<u8>>) {
        let mut b: Vec<u8> = Vec::new();
        write_decimal(&mut b, *self as u64);
        one_block(b)
    }

    fn describe_numberic_behavior(&self) -> (r: NumericBehavior) {
        NumericBehavior::NumericInteger
    }

    fn is_single_arg(&self) -> (r: bool) {
        true
    }

    fn make_arg_vec(items: &[Self]) -> (r: Vec<Vec<u8>>) {
        let ghost g = items@.map_values(|x: Self| x.arg_blocks());
        let mut rv: Vec<Vec<u8>> = Vec::new();
        let mut i: usize = 0;
        while i < items.len()
            invariant
                g == items@.map_values(|x: Self| x.arg_blocks()),
                i <= items@.len(),
                blocks(rv@) == flatten_blocks(g.subrange(0, i as int)),
            decreases items@.len() - i,
        {
            let mut b = items[i].to_redis_args();
            proof {
                lemma_flatten_step(g, i as int, rv@, b@);
            }
            rv.append(&mut b);
            i = i + 1;
        }
        proof {
            assert(g.subrange(0, i as int) =~= g);
        }
        rv
    }

    fn is_single_vec_arg(items: &[Self]) -> (r: bool) {
        items.len() == 1 && items[0].is_single_arg()
    }
}

impl ToRedisArgs for u64 {
    open spec fn arg_blocks(&self) -> Seq<Seq<u8>> {
        seq![decimal(*self as nat)]
    }

    open spec fn numeric(&self) -> NumericBehavior {
        NumericBehavior::NumericInteger
    }

    fn to_redis_args(&self) -> (r: Vec<Vec<u8>>) {
        let mut b: Vec<u8> = Vec::new();
        write_decimal(&mut b, *self as u64);
        one_block(b)
    }

    fn describe_numberic_behavior(&self) -> (r: NumericBehavior) {
        NumericBehavior::NumericInteger
    }

    fn is_single_arg(&self) -> (r: bool) {
        true
    }

    fn make_arg_vec(items: &[Self]) -> (r: Vec<Vec<u8>>) {
        let ghost g = items@.map_values(|x: Self| x.arg_blocks());
        let mut rv: Vec<Vec<u8>> = Vec::new();
        let mut i: usize = 0;
        while i < items.len()
            invariant
                g == items@.map_values(|x: Self| x.arg_blocks()),
                i <= items@.len(),
                blocks(rv@) == flatten_blocks(g.subrange(0, i as int)),
            decreases items@.len() - i,
        {
            let mut b = items[i].to_redis_args();
            proof {
                lemma_flatten_step(g, i as int, rv@, b@);
            }
            rv.append(&mut b);
            i = i + 1;
        }
        proof {
            assert(g.subrange(0, i as int) =~= g);
        }
        rv
    }

    fn is_single_vec_arg(items: &[Self]) -> (r: bool) {
        items.len() == 1 && items[0].is_single_arg()
    }
}

impl ToRedisArgs for usize {
    open spec fn arg_blocks(&self) -> Seq<Seq<u8>> {
        seq![decimal(*self as nat)]
    }

    open spec fn numeric(&self) -> NumericBehavior {
        NumericBehavior::NumericInteger
    }

    fn to_redis_args(&self) -> (r: Vec<Vec<u8>>) {
        let mut b: Vec<u8> = Vec::new();
        write_decimal(&mut b, *self as u64);
        one_block(b)
    }

    fn describe_numberic_behavior(&self) -> (r: NumericBehavior) {
        NumericBehavior::NumericInteger
    }

    fn is_single_arg(&self) -> (r: bool) {
        true
    }

    fn make_arg_vec(items: &[Self]) -> (r: Vec<Vec<u8>>) {
        let ghost g = items@.map_values(|x: Self| x.arg_blocks());
        let mut rv: Vec<Vec<u8>> = Vec::new();
        let mut i: usize = 0;
        while i < items.len()
            invariant
                g == items@.map_values(|x: Self| x.arg_blocks()),
                i <= items@.len(),
                blocks(rv@) == flatten_blocks(g.subrange(0, i as int)),
            decreases items@.len() - i,
        {
            let mut b = items[i].to_redis_args();
            proof {
                lemma_flatten_step(g, i as int, rv@, b@);
            }
            rv.append(&mut b);
            i = i + 1;
        }
        proof {
            assert(g.subrange(0, i as int) =~= g);
        }
        rv
    }

    fn is_single_vec_arg(items: &[Self]) -> (r: bool) {
        items.len() == 1 && items[0].is_single_arg()
    }
}

impl ToRedisArgs for bool {
    open spec fn arg_blocks(&self) -> Seq<Seq<u8>> {
        seq![bool_text(*self)]
    }

    fn to_redis_args(&self) -> (r: Vec<Vec<u8>>) {
        let b: Vec<u8> = if *self {
            vec![116u8, 114u8, 117u8, 101u8]
        } else {
            vec![102u8, 97u8, 108u8, 115u8, 101u8]
        };
        assert(b@ =~= bool_text(*self));
        one_block(b)
    }

    fn describe_numberic_behavior(&self) -> (r: NumericBehavior) {
        NumericBehavior::NonNumeric
    }

    fn is_single_arg(&self) -> (r: bool) {
        true
    }

    fn make_arg_vec(items: &[Self]) -> (r: Vec<Vec<u8>>) {
        let ghost g = items@.map_values(|x: Self| x.arg_blocks());
        let mut rv: Vec<Vec<u8>> = Vec::new();
        let mut i: usize = 0;
        while i < items.len()
            invariant
                g == items@.map_values(|x: Self| x.arg_blocks()),
                i <= items@.len(),
                blocks(rv@) == flatten_blocks(g.subrange(0, i as int)),
            decreases items@.len() - i,
        {
            let mut b = items[i].to_redis_args();
            proof {
                lemma_flatten_step(g, i as int, rv@, b@);
            }
            rv.append(&mut b);
            i = i + 1;
        }
        proof {
            assert(g.subrange(0, i as int) =~= g);
        }
        rv
    }

    fn is_single_vec_arg(items: &[Self]) -> (r: bool) {
        items.len() == 1 && items[0].is_single_arg()
    }
}

/// A byte is one byte of binary payload: alone it is a block of that byte, and
/// a sequence of bytes is one block of those bytes.
impl ToRedisArgs for u8 {
    open spec fn arg_blocks(&self) -> Seq<Seq<u8>> {
        seq![seq![*self]]
    }

    open spec fn seq_blocks(items: Seq<u8>) -> Seq<Seq<u8>> {
        seq![items]
    }

    open spec fn seq_single(items: Seq<u8>) -> bool {
        true
    }

    fn to_redis_args(&self) -> (r: Vec<Vec<u8>>) {
        let mut b: Vec<u8> = Vec::new();
        b.push(*self);
        assert(b@ =~= seq![*self]);
        one_block(b)
    }

    fn describe_numberic_behavior(&self) -> (r: NumericBehavior) {
        NumericBehavior::NonNumeric
    }

    fn is_single_arg(&self) -> (r: bool) {
        true
    }

    fn make_arg_vec(items: &[u8]) -> (r: Vec<Vec<u8>>) {
        let mut b: Vec<u8> = Vec::new();
        let mut i: usize = 0;
        while i < items.len()
            invariant
                i <= items@.len(),
                b@ == items@.subrange(0, i as int),
            decreases items@.len() - i,
        {
            b.push(items[i]);
            i = i + 1;
            assert(b@ =~= items@.subrange(0, i as int));
        }
        assert(b@ =~= items@);
        one_block(b)
    }

    fn is_single_vec_arg(items: &[u8]) -> (r: bool) {
        true
    }
}

impl ToRedisArgs for String {
    open spec fn arg_blocks(&self) -> Seq<Seq<u8>> {
        seq![encode_utf8(self@)]
    }

    fn to_redis_args(&self) -> (r: Vec<Vec<u8>>) {
        one_block(self.as_str().as_bytes_vec())
    }

    fn describe_numberic_behavior(&self) -> (r: NumericBehavior) {
        NumericBehavior::NonNumeric
    }

    fn is_single_arg(&self) -> (r: bool) {
        true
    }

    fn make_arg_vec(items: &[Self]) -> (r: Vec<Vec<u8>>) {
        let ghost g = items@.map_values(|x: Self| x.arg_blocks());
        let mut rv: Vec<Vec<u8>> = Vec::new();
        let mut i: usize = 0;
        while i < items.len()
            invariant
                g == items@.map_values(|x: Self| x.arg_blocks()),
                i <= items@.len(),
                blocks(rv@) == flatten_blocks(g.subrange(0, i as int)),
            decreases items@.len() - i,
        {
            let mut b = items[i].to_redis_args();
            proof {
                lemma_flatten_step(g, i as int, rv@, b@);
            }
            rv.append(&mut b);
            i = i + 1;
        }
        proof {
            assert(g.subrange(0, i as int) =~= g);
        }
        rv
    }

    fn is_single_vec_arg(items: &[Self]) -> (r: bool) {
        items.len() == 1 && items[0].is_single_arg()
    }
}

impl<'a> ToRedisArgs for &'a String {
    open spec fn arg_blocks(&self) -> Seq<Seq<u8>> {
        seq![encode_utf8(self@)]
    }

    fn to_redis_args(&self) -> (r: Vec<Vec<u8>>) {
        one_block(self.as_str().as_bytes_vec())
    }

    fn describe_numberic_behavior(&self) -> (r: NumericBehavior) {
        NumericBehavior::NonNumeric
    }

    fn is_single_arg(&self) -> (r: bool) {
        true
    }

    fn make_arg_vec(items: &[Self]) -> (r: Vec<Vec<u8>>) {
        let ghost g = items@.map_values(|x: Self| Self::arg_blocks(&x));
        let mut rv: Vec<Vec<u8>> = Vec::new();
        let mut i: usize = 0;
        while i < items.len()
            invariant
                g == items@.map_values(|x: Self| Self::arg_blocks(&x)),
                i <= items@.len(),
                blocks(rv@) == flatten_blocks(g.subrange(0, i as int)),
            decreases items@.len() - i,
        {
            let mut b = items[i].to_redis_args();
            proof {
                lemma_flatten_step(g, i as int, rv@, b@);
            }
            rv.append(&mut b);
            i = i + 1;
        }
        proof {
            assert(g.subrange(0, i as int) =~= g);
        }
        rv
    }

    fn is_single_vec_arg(items: &[Self]) -> (r: bool) {
        items.len() == 1 && items[0].is_single_arg()
    }
}

impl<'a> ToRedisArgs for &'a str {
    open spec fn arg_blocks(&self) -> Seq<Seq<u8>> {
        seq![encode_utf8(self@)]
    }

    fn to_redis_args(&self) -> (r: Vec<Vec<u8>>) {
        one_block((*self).as_bytes_vec())
    }

    fn describe_numberic_behavior(&self) -> (r: NumericBehavior) {
        NumericBehavior::NonNumeric
    }

    fn is_single_arg(&self) -> (r: bool) {
        true
    }

    fn make_arg_vec(items: &[Self]) -> (r: Vec<Vec<u8>>) {
        let ghost g = items@.map_values(|x: Self| x.arg_blocks());
        let mut rv: Vec<Vec<u8>> = Vec::new();
        let mut i: usize = 0;
        while i < items.len()
            invariant
                g == items@.map_values(|x: Self| x.arg_blocks()),
                i <= items@.len(),
                blocks(rv@) == flatten_blocks(g.subrange(0, i as int)),
            decreases items@.len() - i,
        {
            let mut b = items[i].to_redis_args();
            proof {
                lemma_flatten_step(g, i as int, rv@, b@);
            }
            rv.append(&mut b);
            i = i + 1;
        }
        proof {
            assert(g.subrange(0, i as int) =~= g);
        }
        rv
    }

    fn is_single_vec_arg(items: &[Self]) -> (r: bool) {
        items.len() == 1 && items[0].is_single_arg()
    }
}

impl<T: ToRedisArgs> ToRedisArgs for Vec<T> {
    open spec fn arg_blocks(&self) -> Seq<Seq<u8>> {
        T::seq_blocks(self@)
    }

    open spec fn single(&self) -> bool {
        T::seq_single(self@)
    }

    fn to_redis_args(&self) -> (r: Vec<Vec<u8>>) {
        T::make_arg_vec(self.as_slice())
    }

    fn describe_numberic_behavior(&self) -> (r: NumericBehavior) {
        NumericBehavior::NonNumeric
    }

    fn is_single_arg(&self) -> (r: bool) {
        T::is_single_vec_arg(self.as_slice())
    }

    fn make_arg_vec(items: &[Self]) -> (r: Vec<Vec<u8>>) {
        let ghost g = items@.map_values(|x: Self| x.arg_blocks());
        let mut rv: Vec<Vec<u8>> = Vec::new();
        let mut i: usize = 0;
        while i < items.len()
            invariant
                g == items@.map_values(|x: Self| x.arg_blocks()),
                i <= items@.len(),
                blocks(rv@) == flatten_blocks(g.subrange(0, i as int)),
            decreases items@.len() - i,
        {
            let mut b = items[i].to_redis_args();
            proof {
                lemma_flatten_step(g, i as int, rv@, b@);
            }
            rv.append(&mut b);
            i = i + 1;
        }
        proof {
            assert(g.subrange(0, i as int) =~= g);
        }
        rv
    }

    fn is_single_vec_arg(items: &[Self]) -> (r: bool) {
        items.len() == 1 && items[0].is_single_arg()
    }
}

impl<'a, T: ToRedisArgs> ToRedisArgs for &'a [T] {
    open spec fn arg_blocks(&self) -> Seq<Seq<u8>> {
        T::seq_blocks(self@)
    }

    open spec fn single(&self) -> bool {
        T::seq_single(self@)
    }

    fn to_redis_args(&self) -> (r: Vec<Vec<u8>>) {
        T::make_arg_vec(*self)
    }

    fn describe_numberic_behavior(&self) -> (r: NumericBehavior) {
        NumericBehavior::NonNumeric
    }

    fn is_single_arg(&self) -> (r: bool) {
        T::is_single_vec_arg(*self)
    }

    fn make_arg_vec(items: &[Self]) -> (r: Vec<Vec<u8>>) {
        let ghost g = items@.map_values(|x: Self| x.arg_blocks());
        let mut rv: Vec<Vec<u8>> = Vec::new();
        let mut i: usize = 0;
        while i < items.len()
            invariant
                g == items@.map_values(|x: Self| x.arg_blocks()),
                i <= items@.len(),
                blocks(rv@) == flatten_blocks(g.subrange(0, i as int)),
            decreases items@.len() - i,
        {
            let mut b = items[i].to_redis_args();
            proof {
                lemma_flatten_step(g, i as int, rv@, b@);
            }
            rv.append(&mut b);
            i = i + 1;
        }
        proof {
            assert(g.subrange(0, i as int) =~= g);
        }
        rv
    }

    fn is_single_vec_arg(items: &[Self]) -> (r: bool) {
        items.len() == 1 && items[0].is_single_arg()
    }
}

impl<'a, T: ToRedisArgs, const N: usize> ToRedisArgs for &'a [T; N] {
    open spec fn arg_blocks(&self) -> Seq<Seq<u8>> {
        T::seq_blocks(self@)
    }

    open spec fn single(&self) -> bool {
        T::seq_single(self@)
    }

    fn to_redis_args(&self) -> (r: Vec<Vec<u8>>) {
        T::make_arg_vec(self.as_slice())
    }

    fn describe_numberic_behavior(&self) -> (r: NumericBehavior) {
        NumericBehavior::NonNumeric
    }

    fn is_single_arg(&self) -> (r: bool) {
        T::is_single_vec_arg(self.as_slice())
    }

    fn make_arg_vec(items: &[Self]) -> (r: Vec<Vec<u8>>) {
        let ghost g = items@.map_values(|x: Self| x.arg_blocks());
        let mut rv: Vec<Vec<u8>> = Vec::new();
        let mut i: usize = 0;
        while i < items.len()
            invariant
                g == items@.map_values(|x: Self| x.arg_blocks()),
                i <= items@.len(),
                blocks(rv@) == flatten_blocks(g.subrange(0, i as int)),
            decreases items@.len() - i,
        {
            let mut b = items[i].to_redis_args();
            proof {
                lemma_flatten_step(g, i as int, rv@, b@);
            }
            rv.append(&mut b);
            i = i + 1;
        }
        proof {
            assert(g.subrange(0, i as int) =~= g);
        }
        rv
    }

    fn is_single_vec_arg(items: &[Self]) -> (r: bool) {
        items.len() == 1 && items[0].is_single_arg()
    }
}

impl<T: ToRedisArgs> ToRedisArgs for Option<T> {
    open spec fn arg_blocks(&self) -> Seq<Seq<u8>> {
        match self {
            Some(v) => v.arg_blocks(),
            None => Seq::empty(),
        }
    }

    open spec fn numeric(&self) -> NumericBehavior {
        match self {
            Some(v) => v.numeric(),
            None => NumericBehavior::NonNumeric,
        }
    }

    open spec fn single(&self) -> bool {
        match self {
            Some(v) => v.single(),
            None => false,
        }
    }

    fn to_redis_args(&self) -> (r: Vec<Vec<u8>>) {
        match self {
            Some(v) => v.to_redis_args(),
            None => {
                let r: Vec<Vec<u8>> = Vec::new();
                assert(blocks(r@) =~= Seq::<Seq<u8>>::empty());
                r
            },
        }
    }

    fn describe_numberic_behavior(&self) -> (r: NumericBehavior) {
        match self {
            Some(v) => v.describe_numberic_behavior(),
            None => NumericBehavior::NonNumeric,
        }
    }

    fn is_single_arg(&self) -> (r: bool) {
        match self {
            Some(v) => v.is_single_arg(),
            None => false,
        }
    }

    fn make_arg_vec(items: &[Self]) -> (r: Vec<Vec<u8>>) {
        let ghost g = items@.map_values(|x: Self| x.arg_blocks());
        let mut rv: Vec<Vec<u8>> = Vec::new();
        let mut i: usize = 0;
        while i < items.len()
            invariant
                g == items@.map_values(|x: Self| x.arg_blocks()),
                i <= items@.len(),
                blocks(rv@) == flatten_blocks(g.subrange(0, i as int)),
            decreases items@.len() - i,
        {
            let mut b = items[i].to_redis_args();
            proof {
                lemma_flatten_step(g, i as int, rv@, b@);
            }
            rv.append(&mut b);
            i = i + 1;
        }
        proof {
            assert(g.subrange(0, i as int) =~= g);
        }
        rv
    }

    fn is_single_vec_arg(items: &[Self]) -> (r: bool) {
        items.len() == 1 && items[0].is_single_arg()
    }
}

impl<T1: ToRedisArgs> ToRedisArgs for (T1,) {
    open spec fn arg_blocks(&self) -> Seq<Seq<u8>> {
        self.0.arg_blocks()
    }

    open spec fn single(&self) -> bool {
        true
    }

    fn to_redis_args(&self) -> (r: Vec<Vec<u8>>) {
        let mut rv = self.0.to_redis_args();
        rv
    }

    fn describe_numberic_behavior(&self) -> (r: NumericBehavior) {
        NumericBehavior::NonNumeric
    }

    fn is_single_arg(&self) -> (r: bool) {
        true
    }

    fn make_arg_vec(items: &[Self]) -> (r: Vec<Vec<u8>>) {
        let ghost g = items@.map_values(|x: Self| x.arg_blocks());
        let mut rv: Vec<Vec<u8>> = Vec::new();
        let mut i: usize = 0;
        while i < items.len()
            invariant
                g == items@.map_values(|x: Self| x.arg_blocks()),
                i <= items@.len(),
                blocks(rv@) == flatten_blocks(g.subrange(0, i as int)),
            decreases items@.len() - i,
        {
            let mut b = items[i].to_redis_args();
            proof {
                lemma_flatten_step(g, i as int, rv@, b@);
            }
            rv.append(&mut b);
            i = i + 1;
        }
        proof {
            assert(g.subrange(0, i as int) =~= g);
        }
        rv
    }

    fn is_single_vec_arg(items: &[Self]) -> (r: bool) {
        items.len() == 1 && items[0].is_single_arg()
    }
}

impl<T1: ToRedisArgs, T2: ToRedisArgs> ToRedisArgs for (T1, T2) {
    open spec fn arg_blocks(&self) -> Seq<Seq<u8>> {
        self.0.arg_blocks() + self.1.arg_blocks()
    }

    open spec fn single(&self) -> bool {
        false
    }

    fn to_redis_args(&self) -> (r: Vec<Vec<u8>>) {
        let mut rv = self.0.to_redis_args();
        let mut b1 = self.1.to_redis_args();
        proof {
            assert(blocks(rv@ + b1@) =~= blocks(rv@) + blocks(b1@));
        }
        rv.append(&mut b1);
        rv
    }

    fn describe_numberic_behavior(&self) -> (r: NumericBehavior) {
        NumericBehavior::NonNumeric
    }

    fn is_single_arg(&self) -> (r: bool) {
        false
    }

    fn make_arg_vec(items: &[Self]) -> (r: Vec<Vec<u8>>) {
        let ghost g = items@.map_values(|x: Self| x.arg_blocks());
        let mut rv: Vec<Vec<u8>> = Vec::new();
        let mut i: usize = 0;
        while i < items.len()
            invariant
                g == items@.map_values(|x: Self| x.arg_blocks()),
                i <= items@.len(),
                blocks(rv@) == flatten_blocks(g.subrange(0, i as int)),
            decreases items@.len() - i,
        {
            let mut b = items[i].to_redis_args();
            proof {
                lemma_flatten_step(g, i as int, rv@, b@);
            }
            rv.append(&mut b);
            i = i + 1;
        }
        proof {
            assert(g.subrange(0, i as int) =~= g);
        }
        rv
    }

    fn is_single_vec_arg(items: &[Self]) -> (r: bool) {
        items.len() == 1 && items[0].is_single_arg()
    }
}

impl<T1: ToRedisArgs, T2: ToRedisArgs, T3: ToRedisArgs> ToRedisArgs for (T1, T2, T3) {
    open spec fn arg_blocks(&self) -> Seq<Seq<u8>> {
        self.0.arg_blocks() + self.1.arg_blocks() + self.2.arg_blocks()
    }

    open spec fn single(&self) -> bool {
        false
    }

    fn to_redis_args(&self) -> (r: Vec<Vec<u8>>) {
        let mut rv = self.0.to_redis_args();
        let mut b1 = self.1.to_redis_args();
        proof {
            assert(blocks(rv@ + b1@) =~= blocks(rv@) + blocks(b1@));
        }
        rv.append(&mut b1);
        let mut b2 = self.2.to_redis_args();
        proof {
            assert(blocks(rv@ + b2@) =~= blocks(rv@) + blocks(b2@));
        }
        rv.append(&mut b2);
        rv
    }

    fn describe_numberic_behavior(&self) -> (r: NumericBehavior) {
        NumericBehavior::NonNumeric
    }

    fn is_single_arg(&self) -> (r: bool) {
        false
    }

    fn make_arg_vec(items: &[Self]) -> (r: Vec<Vec<u8>>) {
        let ghost g = items@.map_values(|x: Self| x.arg_blocks());
        let mut rv: Vec<Vec<u8>> = Vec::new();
        let mut i: usize = 0;
        while i < items.len()
            invariant
                g == items@.map_values(|x: Self| x.arg_blocks()),
                i <= items@.len(),
                blocks(rv@) == flatten_blocks(g.subrange(0, i as int)),
            decreases items@.len() - i,
        {
            let mut b = items[i].to_redis_args();
            proof {
                lemma_flatten_step(g, i as int, rv@, b@);
            }
            rv.append(&mut b);
            i = i + 1;
        }
        proof {
            assert(g.subrange(0, i as int) =~= g);
        }
        rv
    }

    fn is_single_vec_arg(items: &[Self]) -> (r: bool) {
        items.len() == 1 && items[0].is_single_arg()
    }
}

impl<T1: ToRedisArgs, T2: ToRedisArgs, T3: ToRedisArgs, T4: ToRedisArgs> ToRedisArgs for (T1, T2, T3, T4) {
    open spec fn arg_blocks(&self) -> Seq<Seq<u8>> {
        self.0.arg_blocks() + self.1.arg_blocks() + self.2.arg_blocks() + self.3.arg_blocks()
    }

    open spec fn single(&self) -> bool {
        false
    }

    fn to_redis_args(&self) -> (r: Vec<Vec<u8>>) {
        let mut rv = self.0.to_redis_args();
        let mut b1 = self.1.to_redis_args();
        proof {
            assert(blocks(rv@ + b1@) =~= blocks(rv@) + blocks(b1@));
        }
        rv.append(&mut b1);
        let mut b2 = self.2.to_redis_args();
        proof {
            assert(blocks(rv@ + b2@) =~= blocks(rv@) + blocks(b2@));
        }
        rv.append(&mut b2);
        let mut b3 = self.3.to_redis_args();
        proof {
            assert(blocks(rv@ + b3@) =~= blocks(rv@) + blocks(b3@));
        }
        rv.append(&mut b3);
        rv
    }

    fn describe_numberic_behavior(&self) -> (r: NumericBehavior) {
        NumericBehavior::NonNumeric
    }

    fn is_single_arg(&self) -> (r: bool) {
        false
    }

    fn make_arg_vec(items: &[Self]) -> (r: Vec<Vec<u8>>) {
        let ghost g = items@.map_values(|x: Self| x.arg_blocks());
        let mut rv: Vec<Vec<u8>> = Vec::new();
        let mut i: usize = 0;
        while i < items.len()
            invariant
                g == items@.map_values(|x: Self| x.arg_blocks()),
                i <= items@.len(),
                blocks(rv@) == flatten_blocks(g.subrange(0, i as int)),
            decreases items@.len() - i,
        {
            let mut b = items[i].to_redis_args();
            proof {
                lemma_flatten_step(g, i as int, rv@, b@);
            }
            rv.append(&mut b);
            i = i + 1;
        }
        proof {
            assert(g.subrange(0, i as int) =~= g);
        }
        rv
    }

    fn is_single_vec_arg(items: &[Self]) -> (r: bool) {
        items.len() == 1 && items[0].is_single_arg()
    }
}

impl<T1: ToRedisArgs, T2: ToRedisArgs, T3: ToRedisArgs, T4: ToRedisArgs, T5: ToRedisArgs> ToRedisArgs for (T1, T2, T3, T4, T5) {
    open spec fn arg_blocks(&self) -> Seq<Seq<u8>> {
        self.0.arg_blocks() + self.1.arg_blocks() + self.2.arg_blocks() + self.3.arg_blocks() + self.4.arg_blocks()
    }

    open spec fn single(&self) -> bool {
        false
    }

    fn to_redis_args(&self) -> (r: Vec<Vec<u8>>) {
        let mut rv = self.0.to_redis_args();
        let mut b1 = self.1.to_redis_args();
        proof {
            assert(blocks(rv@ + b1@) =~= blocks(rv@) + blocks(b1@));
        }
        rv.append(&mut b1);
        let mut b2 = self.2.to_redis_args();
        proof {
            assert(blocks(rv@ + b2@) =~= blocks(rv@) + blocks(b2@));
        }
        rv.append(&mut b2);
        let mut b3 = self.3.to_redis_args();
        proof {
            assert(blocks(rv@ + b3@) =~= blocks(rv@) + blocks(b3@));
        }
        rv.append(&mut b3);
        let mut b4 = self.4.to_redis_args();
        proof {
            assert(blocks(rv@ + b4@) =~= blocks(rv@) + blocks(b4@));
        }
        rv.append(&mut b4);
        rv
    }

    fn describe_numberic_behavior(&self) -> (r: NumericBehavior) {
        NumericBehavior::NonNumeric
    }

    fn is_single_arg(&self) -> (r: bool) {
        false
    }

    fn make_arg_vec(items: &[Self]) -> (r: Vec<Vec<u8>>) {
        let ghost g = items@.map_values(|x: Self| x.arg_blocks());
        let mut rv: Vec<Vec<u8>> = Vec::new();
        let mut i: usize = 0;
        while i < items.len()
            invariant
                g == items@.map_values(|x: Self| x.arg_blocks()),
                i <= items@.len(),
                blocks(rv@) == flatten_blocks(g.subrange(0, i as int)),
            decreases items@.len() - i,
        {
            let mut b = items[i].to_redis_args();
            proof {
                lemma_flatten_step(g, i as int, rv@, b@);
            }
            rv.append(&mut b);
            i = i + 1;
        }
        proof {
            assert(g.subrange(0, i as int) =~= g);
        }
        rv
    }

    fn is_single_vec_arg(items: &[Self]) -> (r: bool) {
        items.len() == 1 && items[0].is_single_arg()
    }
}

impl<T1: ToRedisArgs, T2: ToRedisArgs, T3: ToRedisArgs, T4: ToRedisArgs, T5: ToRedisArgs, T6: ToRedisArgs> ToRedisArgs for (T1, T2, T3, T4, T5, T6) {
    open spec fn arg_blocks(&self) -> Seq<Seq<u8>> {
        self.0.arg_blocks() + self.1.arg_blocks() + self.2.arg_blocks() + self.3.arg_blocks() + self.4.arg_blocks() + self.5.arg_blocks()
    }

    open spec fn single(&self) -> bool {
        false
    }

    fn to_redis_args(&self) -> (r: Vec<Vec<u8>>) {
        let mut rv = self.0.to_redis_args();
        let mut b1 = self.1.to_redis_args();
        proof {
            assert(blocks(rv@ + b1@) =~= blocks(rv@) + blocks(b1@));
        }
        rv.append(&mut b1);
        let mut b2 = self.2.to_redis_args();
        proof {
            assert(blocks(rv@ + b2@) =~= blocks(rv@) + blocks(b2@));
        }
        rv.append(&mut b2);
        let mut b3 = self.3.to_redis_args();
        proof {
            assert(blocks(rv@ + b3@) =~= blocks(rv@) + blocks(b3@));
        }
        rv.append(&mut b3);
        let mut b4 = self.4.to_redis_args();
        proof {
            assert(blocks(rv@ + b4@) =~= blocks(rv@) + blocks(b4@));
        }
        rv.append(&mut b4);
        let mut b5 = self.5.to_redis_args();
        proof {
            assert(blocks(rv@ + b5@) =~= blocks(rv@) + blocks(b5@));
        }
        rv.append(&mut b5);
        rv
    }

    fn describe_numberic_behavior(&self) -> (r: NumericBehavior) {
        NumericBehavior::NonNumeric
    }

    fn is_single_arg(&self) -> (r: bool) {
        false
    }

    fn make_arg_vec(items: &[Self]) -> (r: Vec<Vec<u8>>) {
        let ghost g = items@.map_values(|x: Self| x.arg_blocks());
        let mut rv: Vec<Vec<u8>> = Vec::new();
        let mut i: usize = 0;
        while i < items.len()
            invariant
                g == items@.map_values(|x: Self| x.arg_blocks()),
                i <= items@.len(),
                blocks(rv@) == flatten_blocks(g.subrange(0, i as int)),
            decreases items@.len() - i,
        {
            let mut b = items[i].to_redis_args();
            proof {
                lemma_flatten_step(g, i as int, rv@, b@);
            }
            rv.append(&mut b);
            i = i + 1;
        }
        proof {
            assert(g.subrange(0, i as int) =~= g);
        }
        rv
    }

    fn is_single_vec_arg(items: &[Self]) -> (r: bool) {
        items.len() == 1 && items[0].is_single_arg()
    }
}

impl<T1: ToRedisArgs, T2: ToRedisArgs, T3: ToRedisArgs, T4: ToRedisArgs, T5: ToRedisArgs, T6: ToRedisArgs, T7: ToRedisArgs> ToRedisArgs for (T1, T2, T3, T4, T5, T6, T7) {
    open spec fn arg_blocks(&self) -> Seq<Seq<u8>> {
        self.0.arg_blocks() + self.1.arg_blocks() + self.2.arg_blocks() + self.3.arg_blocks() + self.4.arg_blocks() + self.5.arg_blocks() + self.6.arg_blocks()
    }

    open spec fn single(&self) -> bool {
        false
    }

    fn to_redis_args(&self) -> (r: Vec<Vec<u8>>) {
        let mut rv = self.0.to_redis_args();
        let mut b1 = self.1.to_redis_args();
        proof {
            assert(blocks(rv@ + b1@) =~= blocks(rv@) + blocks(b1@));
        }
        rv.append(&mut b1);
        let mut b2 = self.2.to_redis_args();
        proof {
            assert(blocks(rv@ + b2@) =~= blocks(rv@) + blocks(b2@));
        }
        rv.append(&mut b2);
        let mut b3 = self.3.to_redis_args();
        proof {
            assert(blocks(rv@ + b3@) =~= blocks(rv@) + blocks(b3@));
        }
        rv.append(&mut b3);
        let mut b4 = self.4.to_redis_args();
        proof {
            assert(blocks(rv@ + b4@) =~= blocks(rv@) + blocks(b4@));
        }
        rv.append(&mut b4);
        let mut b5 = self.5.to_redis_args();
        proof {
            assert(blocks(rv@ + b5@) =~= blocks(rv@) + blocks(b5@));
        }
        rv.append(&mut b5);
        let mut b6 = self.6.to_redis_args();
        proof {
            assert(blocks(rv@ + b6@) =~= blocks(rv@) + blocks(b6@));
        }
        rv.append(&mut b6);
        rv
    }

    fn describe_numberic_behavior(&self) -> (r: NumericBehavior) {
        NumericBehavior::NonNumeric
    }

    fn is_single_arg(&self) -> (r: bool) {
        false
    }

    fn make_arg_vec(items: &[Self]) -> (r: Vec<Vec<u8>>) {
        let ghost g = items@.map_values(|x: Self| x.arg_blocks());
        let mut rv: Vec<Vec<u8>> = Vec::new();
        let mut i: usize = 0;
        while i < items.len()
            invariant
                g == items@.map_values(|x: Self| x.arg_blocks()),
                i <= items@.len(),
                blocks(rv@) == flatten_blocks(g.subrange(0, i as int)),
            decreases items@.len() - i,
        {
            let mut b = items[i].to_redis_args();
            proof {
                lemma_flatten_step(g, i as int, rv@, b@);
            }
            rv.append(&mut b);
            i = i + 1;
        }
        proof {
            assert(g.subrange(0, i as int) =~= g);
        }
        rv
    }

    fn is_single_vec_arg(items: &[Self]) -> (r: bool) {
        items.len() == 1 && items[0].is_single_arg()
    }
}

impl<T1: ToRedisArgs, T2: ToRedisArgs, T3: ToRedisArgs, T4: ToRedisArgs, T5: ToRedisArgs, T6: ToRedisArgs, T7: ToRedisArgs, T8: ToRedisArgs> ToRedisArgs for (T1, T2, T3, T4, T5, T6, T7, T8) {
    open spec fn arg_blocks(&self) -> Seq<Seq<u8>> {
        self.0.arg_blocks() + self.1.arg_blocks() + self.2.arg_blocks() + self.3.arg_blocks() + self.4.arg_blocks() + self.5.arg_blocks() + self.6.arg_blocks() + self.7.arg_blocks()
    }

    open spec fn single(&self) -> bool {
        false
    }

    fn to_redis_args(&self) -> (r: Vec<Vec<u8>>) {
        let mut rv = self.0.to_redis_args();
        let mut b1 = self.1.to_redis_args();
        proof {
            assert(blocks(rv@ + b1@) =~= blocks(rv@) + blocks(b1@));
        }
        rv.append(&mut b1);
        let mut b2 = self.2.to_redis_args();
        proof {
            assert(blocks(rv@ + b2@) =~= blocks(rv@) + blocks(b2@));
        }
        rv.append(&mut b2);
        let mut b3 = self.3.to_redis_args();
        proof {
            assert(blocks(rv@ + b3@) =~= blocks(rv@) + blocks(b3@));
        }
        rv.append(&mut b3);
        let mut b4 = self.4.to_redis_args();
        proof {
            assert(blocks(rv@ + b4@) =~= blocks(rv@) + blocks(b4@));
        }
        rv.append(&mut b4);
        let mut b5 = self.5.to_redis_args();
        proof {
            assert(blocks(rv@ + b5@) =~= blocks(rv@) + blocks(b5@));
        }
        rv.append(&mut b5);
        let mut b6 = self.6.to_redis_args();
        proof {
            assert(blocks(rv@ + b6@) =~= blocks(rv@) + blocks(b6@));
        }
        rv.append(&mut b6);
        let mut b7 = self.7.to_redis_args();
        proof {
            assert(blocks(rv@ + b7@) =~= blocks(rv@) + blocks(b7@));
        }
        rv.append(&mut b7);
        rv
    }

    fn describe_numberic_behavior(&self) -> (r: NumericBehavior) {
        NumericBehavior::NonNumeric
    }

    fn is_single_arg(&self) -> (r: bool) {
        false
    }

    fn make_arg_vec(items: &[Self]) -> (r: Vec<Vec<u8>>) {
        let ghost g = items@.map_values(|x: Self| x.arg_blocks());
        let mut rv: Vec<Vec<u8>> = Vec::new();
        let mut i: usize = 0;
        while i < items.len()
            invariant
                g == items@.map_values(|x: Self| x.arg_blocks()),
                i <= items@.len(),
                blocks(rv@) == flatten_blocks(g.subrange(0, i as int)),
            decreases items@.len() - i,
        {
            let mut b = items[i].to_redis_args();
            proof {
                lemma_flatten_step(g, i as int, rv@, b@);
            }
            rv.append(&mut b);
            i = i + 1;
        }
        proof {
            assert(g.subrange(0, i as int) =~= g);
        }
        rv
    }

    fn is_single_vec_arg(items: &[Self]) -> (r: bool) {
        items.len() == 1 && items[0].is_single_arg()
    }
}

impl<T1: ToRedisArgs, T2: ToRedisArgs, T3: ToRedisArgs, T4: ToRedisArgs, T5: ToRedisArgs, T6: ToRedisArgs, T7: ToRedisArgs, T8: ToRedisArgs, T9: ToRedisArgs> ToRedisArgs for (T1, T2, T3, T4, T5, T6, T7, T8, T9) {
    open spec fn arg_blocks(&self) -> Seq<Seq<u8>> {
        self.0.arg_blocks() + self.1.arg_blocks() + self.2.arg_blocks() + self.3.arg_blocks() + self.4.arg_blocks() + self.5.arg_blocks() + self.6.arg_blocks() + self.7.arg_blocks() + self.8.arg_blocks()
    }

    open spec fn single(&self) -> bool {
        false
    }

    fn to_redis_args(&self) -> (r: Vec<Vec<u8>>) {
        let mut rv = self.0.to_redis_args();
        let mut b1 = self.1.to_redis_args();
        proof {
            assert(blocks(rv@ + b1@) =~= blocks(rv@) + blocks(b1@));
        }
        rv.append(&mut b1);
        let mut b2 = self.2.to_redis_args();
        proof {
            assert(blocks(rv@ + b2@) =~= blocks(rv@) + blocks(b2@));
        }
        rv.append(&mut b2);
        let mut b3 = self.3.to_redis_args();
        proof {
            assert(blocks(rv@ + b3@) =~= blocks(rv@) + blocks(b3@));
        }
        rv.append(&mut b3);
        let mut b4 = self.4.to_redis_args();
        proof {
            assert(blocks(rv@ + b4@) =~= blocks(rv@) + blocks(b4@));
        }
        rv.append(&mut b4);
        let mut b5 = self.5.to_redis_args();
        proof {
            assert(blocks(rv@ + b5@) =~= blocks(rv@) + blocks(b5@));
        }
        rv.append(&mut b5);
        let mut b6 = self.6.to_redis_args();
        proof {
            assert(blocks(rv@ + b6@) =~= blocks(rv@) + blocks(b6@));
        }
        rv.append(&mut b6);
        let mut b7 = self.7.to_redis_args();
        proof {
            assert(blocks(rv@ + b7@) =~= blocks(rv@) + blocks(b7@));
        }
        rv.append(&mut b7);
        let mut b8 = self.8.to_redis_args();
        proof {
            assert(blocks(rv@ + b8@) =~= blocks(rv@) + blocks(b8@));
        }
        rv.append(&mut b8);
        rv
    }

    fn describe_numberic_behavior(&self) -> (r: NumericBehavior) {
        NumericBehavior::NonNumeric
    }

    fn is_single_arg(&self) -> (r: bool) {
        false
    }

    fn make_arg_vec(items: &[Self]) -> (r: Vec<Vec<u8>>) {
        let ghost g = items@.map_values(|x: Self| x.arg_blocks());
        let mut rv: Vec<Vec<u8>> = Vec::new();
        let mut i: usize = 0;
        while i < items.len()
            invariant
                g == items@.map_values(|x: Self| x.arg_blocks()),
                i <= items@.len(),
                blocks(rv@) == flatten_blocks(g.subrange(0, i as int)),
            decreases items@.len() - i,
        {
            let mut b = items[i].to_redis_args();
            proof {
                lemma_flatten_step(g, i as int, rv@, b@);
            }
            rv.append(&mut b);
            i = i + 1;
        }
        proof {
            assert(g.subrange(0, i as int) =~= g);
        }
        rv
    }

    fn is_single_vec_arg(items: &[Self]) -> (r: bool) {
        items.len() == 1 && items[0].is_single_arg()
    }
}

impl<T1: ToRedisArgs, T2: ToRedisArgs, T3: ToRedisArgs, T4: ToRedisArgs, T5: ToRedisArgs, T6: ToRedisArgs, T7: ToRedisArgs, T8: ToRedisArgs, T9: ToRedisArgs, T10: ToRedisArgs> ToRedisArgs for (T1, T2, T3, T4, T5, T6, T7, T8, T9, T10) {
    open spec fn arg_blocks(&self) -> Seq<Seq<u8>> {
        self.0.arg_blocks() + self.1.arg_blocks() + self.2.arg_blocks() + self.3.arg_blocks() + self.4.arg_blocks() + self.5.arg_blocks() + self.6.arg_blocks() + self.7.arg_blocks() + self.8.arg_blocks() + self.9.arg_blocks()
    }

    open spec fn single(&self) -> bool {
        false
    }

    fn to_redis_args(&self) -> (r: Vec<Vec<u8>>) {
        let mut rv = self.0.to_redis_args();
        let mut b1 = self.1.to_redis_args();
        proof {
            assert(blocks(rv@ + b1@) =~= blocks(rv@) + blocks(b1@));
        }
        rv.append(&mut b1);
        let mut b2 = self.2.to_redis_args();
        proof {
            assert(blocks(rv@ + b2@) =~= blocks(rv@) + blocks(b2@));
        }
        rv.append(&mut b2);
        let mut b3 = self.3.to_redis_args();
        proof {
            assert(blocks(rv@ + b3@) =~= blocks(rv@) + blocks(b3@));
        }
        rv.append(&mut b3);
        let mut b4 = self.4.to_redis_args();
        proof {
            assert(blocks(rv@ + b4@) =~= blocks(rv@) + blocks(b4@));
        }
        rv.append(&mut b4);
        let mut b5 = self.5.to_redis_args();
        proof {
            assert(blocks(rv@ + b5@) =~= blocks(rv@) + blocks(b5@));
        }
        rv.append(&mut b5);
        let mut b6 = self.6.to_redis_args();
        proof {
            assert(blocks(rv@ + b6@) =~= blocks(rv@) + blocks(b6@));
        }
        rv.append(&mut b6);
        let mut b7 = self.7.to_redis_args();
        proof {
            assert(blocks(rv@ + b7@) =~= blocks(rv@) + blocks(b7@));
        }
        rv.append(&mut b7);
        let mut b8 = self.8.to_redis_args();
        proof {
            assert(blocks(rv@ + b8@) =~= blocks(rv@) + blocks(b8@));
        }
        rv.append(&mut b8);
        let mut b9 = self.9.to_redis_args();
        proof {
            assert(blocks(rv@ + b9@) =~= blocks(rv@) + blocks(b9@));
        }
        rv.append(&mut b9);
        rv
    }

    fn describe_numberic_behavior(&self) -> (r: NumericBehavior) {
        NumericBehavior::NonNumeric
    }

    fn is_single_arg(&self) -> (r: bool) {
        false
    }

    fn make_arg_vec(items: &[Self]) -> (r: Vec<Vec<u8>>) {
        let ghost g = items@.map_values(|x: Self| x.arg_blocks());
        let mut rv: Vec<Vec<u8>> = Vec::new();
        let mut i: usize = 0;
        while i < items.len()
            invariant
                g == items@.map_values(|x: Self| x.arg_blocks()),
                i <= items@.len(),
                blocks(rv@) == flatten_blocks(g.subrange(0, i as int)),
            decreases items@.len() - i,
        {
            let mut b = items[i].to_redis_args();
            proof {
                lemma_flatten_step(g, i as int, rv@, b@);
            }
            rv.append(&mut b);
            i = i + 1;
        }
        proof {
            assert(g.subrange(0, i as int) =~= g);
        }
        rv
    }

    fn is_single_vec_arg(items: &[Self]) -> (r: bool) {
        items.len() == 1 && items[0].is_single_arg()
    }
}

impl<T1: ToRedisArgs, T2: ToRedisArgs, T3: ToRedisArgs, T4: ToRedisArgs, T5: ToRedisArgs, T6: ToRedisArgs, T7: ToRedisArgs, T8: ToRedisArgs, T9: ToRedisArgs, T10: ToRedisArgs, T11: ToRedisArgs> ToRedisArgs for (T1, T2, T3, T4, T5, T6, T7, T8, T9, T10, T11) {
    open spec fn arg_blocks(&self) -> Seq<Seq<u8>> {
        self.0.arg_blocks() + self.1.arg_blocks() + self.2.arg_blocks() + self.3.arg_blocks() + self.4.arg_blocks() + self.5.arg_blocks() + self.6.arg_blocks() + self.7.arg_blocks() + self.8.arg_blocks() + self.9.arg_blocks() + self.10.arg_blocks()
    }

    open spec fn single(&self) -> bool {
        false
    }

    fn to_redis_args(&self) -> (r: Vec<Vec<u8>>) {
        let mut rv = self.0.to_redis_args();
        let mut b1 = self.1.to_redis_args();
        proof {
            assert(blocks(rv@ + b1@) =~= blocks(rv@) + blocks(b1@));
        }
        rv.append(&mut b1);
        let mut b2 = self.2.to_redis_args();
        proof {
            assert(blocks(rv@ + b2@) =~= blocks(rv@) + blocks(b2@));
        }
        rv.append(&mut b2);
        let mut b3 = self.3.to_redis_args();
        proof {
            assert(blocks(rv@ + b3@) =~= blocks(rv@) + blocks(b3@));
        }
        rv.append(&mut b3);
        let mut b4 = self.4.to_redis_args();
        proof {
            assert(blocks(rv@ + b4@) =~= blocks(rv@) + blocks(b4@));
        }
        rv.append(&mut b4);
        let mut b5 = self.5.to_redis_args();
        proof {
            assert(blocks(rv@ + b5@) =~= blocks(rv@) + blocks(b5@));
        }
        rv.append(&mut b5);
        let mut b6 = self.6.to_redis_args();
        proof {
            assert(blocks(rv@ + b6@) =~= blocks(rv@) + blocks(b6@));
        }
        rv.append(&mut b6);
        let mut b7 = self.7.to_redis_args();
        proof {
            assert(blocks(rv@ + b7@) =~= blocks(rv@) + blocks(b7@));
        }
        rv.append(&mut b7);
        let mut b8 = self.8.to_redis_args();
        proof {
            assert(blocks(rv@ + b8@) =~= blocks(rv@) + blocks(b8@));
        }
        rv.append(&mut b8);
        let mut b9 = self.9.to_redis_args();
        proof {
            assert(blocks(rv@ + b9@) =~= blocks(rv@) + blocks(b9@));
        }
        rv.append(&mut b9);
        let mut b10 = self.10.to_redis_args();
        proof {
            assert(blocks(rv@ + b10@) =~= blocks(rv@) + blocks(b10@));
        }
        rv.append(&mut b10);
        rv
    }

    fn describe_numberic_behavior(&self) -> (r: NumericBehavior) {
        NumericBehavior::NonNumeric
    }

    fn is_single_arg(&self) -> (r: bool) {
        false
    }

    fn make_arg_vec(items: &[Self]) -> (r: Vec<Vec<u8>>) {
        let ghost g = items@.map_values(|x: Self| x.arg_blocks());
        let mut rv: Vec<Vec<u8>> = Vec::new();
        let mut i: usize = 0;
        while i < items.len()
            invariant
                g == items@.map_values(|x: Self| x.arg_blocks()),
                i <= items@.len(),
                blocks(rv@) == flatten_blocks(g.subrange(0, i as int)),
            decreases items@.len() - i,
        {
            let mut b = items[i].to_redis_args();
            proof {
                lemma_flatten_step(g, i as int, rv@, b@);
            }
            rv.append(&mut b);
            i = i + 1;
        }
        proof {
            assert(g.subrange(0, i as int) =~= g);
        }
        rv
    }

    fn is_single_vec_arg(items: &[Self]) -> (r: bool) {
        items.len() == 1 && items[0].is_single_arg()
    }
}

impl<T1: ToRedisArgs, T2: ToRedisArgs, T3: ToRedisArgs, T4: ToRedisArgs, T5: ToRedisArgs, T6: ToRedisArgs, T7: ToRedisArgs, T8: ToRedisArgs, T9: ToRedisArgs, T10: ToRedisArgs, T11: ToRedisArgs, T12: ToRedisArgs> ToRedisArgs for (T1, T2, T3, T4, T5, T6, T7, T8, T9, T10, T11, T12) {
    open spec fn arg_blocks(&self) -> Seq<Seq<u8>> {
        self.0.arg_blocks() + self.1.arg_blocks() + self.2.arg_blocks() + self.3.arg_blocks() + self.4.arg_blocks() + self.5.arg_blocks() + self.6.arg_blocks() + self.7.arg_blocks() + self.8.arg_blocks() + self.9.arg_blocks() + self.10.arg_blocks() + self.11.arg_blocks()
    }

    open spec fn single(&self) -> bool {
        false
    }

    fn to_redis_args(&self) -> (r: Vec<Vec<u8>>) {
        let mut rv = self.0.to_redis_args();
        let mut b1 = self.1.to_redis_args();
        proof {
            assert(blocks(rv@ + b1@) =~= blocks(rv@) + blocks(b1@));
        }
        rv.append(&mut b1);
        let mut b2 = self.2.to_redis_args();
        proof {
            assert(blocks(rv@ + b2@) =~= blocks(rv@) + blocks(b2@));
        }
        rv.append(&mut b2);
        let mut b3 = self.3.to_redis_args();
        proof {
            assert(blocks(rv@ + b3@) =~= blocks(rv@) + blocks(b3@));
        }
        rv.append(&mut b3);
        let mut b4 = self.4.to_redis_args();
        proof {
            assert(blocks(rv@ + b4@) =~= blocks(rv@) + blocks(b4@));
        }
        rv.append(&mut b4);
        let mut b5 = self.5.to_redis_args();
        proof {
            assert(blocks(rv@ + b5@) =~= blocks(rv@) + blocks(b5@));
        }
        rv.append(&mut b5);
        let mut b6 = self.6.to_redis_args();
        proof {
            assert(blocks(rv@ + b6@) =~= blocks(rv@) + blocks(b6@));
        }
        rv.append(&mut b6);
        let mut b7 = self.7.to_redis_args();
        proof {
            assert(blocks(rv@ + b7@) =~= blocks(rv@) + blocks(b7@));
        }
        rv.append(&mut b7);
        let mut b8 = self.8.to_redis_args();
        proof {
            assert(blocks(rv@ + b8@) =~= blocks(rv@) + blocks(b8@));
        }
        rv.append(&mut b8);
        let mut b9 = self.9.to_redis_args();
        proof {
            assert(blocks(rv@ + b9@) =~= blocks(rv@) + blocks(b9@));
        }
        rv.append(&mut b9);
        let mut b10 = self.10.to_redis_args();
        proof {
            assert(blocks(rv@ + b10@) =~= blocks(rv@) + blocks(b10@));
        }
        rv.append(&mut b10);
        let mut b11 = self.11.to_redis_args();
        proof {
            assert(blocks(rv@ + b11@) =~= blocks(rv@) + blocks(b11@));
        }
        rv.append(&mut b11);
        rv
    }

    fn describe_numberic_behavior(&self) -> (r: NumericBehavior) {
        NumericBehavior::NonNumeric
    }

    fn is_single_arg(&self) -> (r: bool) {
        false
    }

    fn make_arg_vec(items: &[Self]) -> (r: Vec<Vec<u8>>) {
        let ghost g = items@.map_values(|x: Self| x.arg_blocks());
        let mut rv: Vec<Vec<u8>> = Vec::new();
        let mut i: usize = 0;
        while i < items.len()
            invariant
                g == items@.map_values(|x: Self| x.arg_blocks()),
                i <= items@.len(),
                blocks(rv@) == flatten_blocks(g.subrange(0, i as int)),
            decreases items@.len() - i,
        {
            let mut b = items[i].to_redis_args();
            proof {
                lemma_flatten_step(g, i as int, rv@, b@);
            }
            rv.append(&mut b);
            i = i + 1;
        }
        proof {
            assert(g.subrange(0, i as int) =~= g);
        }
        rv
    }

    fn is_single_vec_arg(items: &[Self]) -> (r: bool) {
        items.len() == 1 && items[0].is_single_arg()
    }
}

/// A sequence converts to its elements' arguments one after the other: two
/// text elements give two arguments, the same as the two texts appended one by
/// one, and one element stands as a single argument exactly as that element.
pub proof fn lemma_text_sequence_expansion(v: Vec<&str>)
    ensures
        v.arg_blocks() == flatten_blocks(v@.map_values(|x: &str| x.arg_blocks())),
        v@.len() == 2 ==> v.arg_blocks() == v@[0].arg_blocks() + v@[1].arg_blocks() && !v.single(),
        v@.len() == 1 ==> v.arg_blocks() == v@[0].arg_blocks() && v.single(),
{
    lemma_flatten_small(v@.map_values(|x: &str| x.arg_blocks()));
}

/// The same for integer elements: each element becomes the decimal text of
/// its value, as one argument of its own.
pub proof fn lemma_integer_sequence_expansion(v: Vec<i64>)
    ensures
        v.arg_blocks() == flatten_blocks(v@.map_values(|x: i64| x.arg_blocks())),
        v@.len() == 2 ==> v.arg_blocks() == seq![
            signed_decimal(v@[0] as int),
            signed_decimal(v@[1] as int),
        ] && !v.single(),
        v@.len() == 1 ==> v.arg_blocks() == seq![signed_decimal(v@[0] as int)] && v.single(),
{
    lemma_flatten_small(v@.map_values(|x: i64| x.arg_blocks()));
}

proof fn lemma_flatten_small(g: Seq<Seq<Seq<u8>>>)
    ensures
        g.len() == 1 ==> flatten_blocks(g) == g[0],
        g.len() == 2 ==> flatten_blocks(g) == g[0] + g[1],
{
    reveal_with_fuel(flatten_blocks, 3);
    if g.len() == 1 {
        assert(g.drop_last() =~= Seq::<Seq<Seq<u8>>>::empty());
        assert(flatten_blocks(g) == flatten_blocks(g.drop_last()) + g.last());
        assert(Seq::<Seq<u8>>::empty() + g[0] =~= g[0]);
    }
    if g.len() == 2 {
        let h = g.drop_last();
        assert(h.drop_last() =~= Seq::<Seq<Seq<u8>>>::empty());
        assert(flatten_blocks(h) == flatten_blocks(h.drop_last()) + h.last());
        assert(Seq::<Seq<u8>>::empty() + h[0] =~= h[0]);
        assert(flatten_blocks(g) == flatten_blocks(h) + g.last());
    }
}

} // verus!
