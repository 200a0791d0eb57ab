//! The GGUF format from the writing side: the bytes of a header with given entries,
//! and that reading them gives back what was written.

use vstd::prelude::*;
use crate::discovery::gguf::{
    any_context, entries, fixed_size, has_magic, header, info_of, is_kept, lookup, lossy,
    nothing_seen, put, saturating_product, seen_with, skip_strings,
    string_at, type_label, u32_at, u64_at, value_at, GgufError, InfoView, ScalarView, Seen,
};

verus! {

// --- writing -----------------------------------------------------------------

/// A number in so many bytes, the least significant one first.
pub open spec fn little(n: nat, width: nat) -> Seq<u8>
    decreases width,
{
    if width == 0 {
        Seq::<u8>::empty()
    } else {
        seq![(n % 256) as u8] + little(n / 256, (width - 1) as nat)
    }
}

/// The types of numbers.
pub enum Number {
    Uint8,
    Int8,
    Uint16,
    Int16,
    Uint32,
    Int32,
    Float32,
    Bool,
    Uint64,
    Int64,
    Float64,
}

impl Number {
    /// The tag that a type is written with.
    pub open spec fn tag(self) -> nat {
        match self {
            Number::Uint8 => 0,
            Number::Int8 => 1,
            Number::Uint16 => 2,
            Number::Int16 => 3,
            Number::Uint32 => 4,
            Number::Int32 => 5,
            Number::Float32 => 6,
            Number::Bool => 7,
            Number::Uint64 => 10,
            Number::Int64 => 11,
            Number::Float64 => 12,
        }
    }

    /// How many bytes a number takes.
    pub open spec fn width(self) -> nat {
        match self {
            Number::Uint8 | Number::Int8 | Number::Bool => 1,
            Number::Uint16 | Number::Int16 => 2,
            Number::Uint32 | Number::Int32 | Number::Float32 => 4,
            Number::Uint64 | Number::Int64 | Number::Float64 => 8,
        }
    }

    /// How many numbers the bytes can tell apart.
    pub open spec fn range(self) -> nat {
        if self.width() == 1 {
            0x100
        } else if self.width() == 2 {
            0x1_0000
        } else if self.width() == 4 {
            0x1_0000_0000
        } else {
            0x1_0000_0000_0000_0000
        }
    }

    /// What bits of the type stand for, in 64 bits: a signed number below zero keeps
    /// its distance from the top, a truth value is one or nothing, and a
    /// floating-point number is not taken in.
    pub open spec fn meaning(self, bits: nat) -> Option<nat> {
        match self {
            Number::Float32 | Number::Float64 => None,
            Number::Bool => Some(
                if bits == 0 {
                    0
                } else {
                    1
                },
            ),
            Number::Int8 | Number::Int16 | Number::Int32 | Number::Int64 => Some(
                if 2 * bits >= self.range() {
                    (0x1_0000_0000_0000_0000 - (self.range() - bits)) as nat
                } else {
                    bits
                },
            ),
            _ => Some(bits),
        }
    }
}

/// A value as it is written.
pub enum Value {
    /// A number of a type, by its bits.
    One(Number, nat),
    Text(Seq<u8>),
    /// An array of numbers of a type: how many, and their bytes.
    Many(Number, nat, Seq<u8>),
    /// An array of texts.
    Texts(Seq<Seq<u8>>),
}

/// A text with its length before it.
pub open spec fn text_bytes(t: Seq<u8>) -> Seq<u8> {
    little(t.len(), 8) + t
}

/// Texts one after the other.
pub open spec fn texts_bytes(texts: Seq<Seq<u8>>) -> Seq<u8>
    decreases texts.len(),
{
    if texts.len() == 0 {
        Seq::<u8>::empty()
    } else {
        text_bytes(texts[0]) + texts_bytes(texts.skip(1))
    }
}

/// The longest text that can be read, in bytes: 64 MiB.
pub open spec fn longest() -> nat {
    64 * 1024 * 1024
}

impl Value {
    pub open spec fn tag(self) -> nat {
        match self {
            Value::One(t, _) => t.tag(),
            Value::Text(_) => 8,
            Value::Many(_, _, _) => 9,
            Value::Texts(_) => 9,
        }
    }

    pub open spec fn bytes(self) -> Seq<u8> {
        match self {
            Value::One(t, bits) => little(bits, t.width()),
            Value::Text(t) => text_bytes(t),
            Value::Many(t, count, raw) => little(t.tag(), 4) + little(count, 8) + raw,
            Value::Texts(texts) => little(8, 4) + little(texts.len(), 8) + texts_bytes(texts),
        }
    }

    /// Whether the value can be written.
    pub open spec fn fits(self) -> bool {
        match self {
            Value::One(t, bits) => bits < t.range(),
            Value::Text(t) => t.len() <= longest(),
            Value::Many(t, count, raw) => raw.len() == count * t.width() && raw.len() <= u64::MAX,
            Value::Texts(texts) => texts.len() <= u64::MAX && forall|i: int|
                0 <= i < texts.len() ==> (#[trigger] texts[i]).len() <= u64::MAX,
        }
    }

    /// What is read of the value; arrays and floating-point numbers are not taken in.
    pub open spec fn meaning(self) -> Option<ScalarView> {
        match self {
            Value::One(t, bits) => match t.meaning(bits) {
                Some(n) => Some(ScalarView::U(n as u64)),
                None => None,
            },
            Value::Text(t) => Some(ScalarView::S(lossy(t))),
            Value::Many(_, _, _) => None,
            Value::Texts(_) => None,
        }
    }
}

/// An entry of a header.
pub struct Entry {
    pub key: Seq<u8>,
    pub value: Value,
}

impl Entry {
    pub open spec fn bytes(self) -> Seq<u8> {
        text_bytes(self.key) + (little(self.value.tag(), 4) + self.value.bytes())
    }

    /// Whether the entry can be written.
    pub open spec fn fits(self) -> bool {
        self.key.len() <= longest() && self.value.fits()
    }

    /// Whether the entry gives a key a value that is taken in.
    pub open spec fn says(self, key: Seq<char>) -> bool {
        lossy(self.key) == key && self.value.meaning() is Some
    }
}

/// Entries one after the other.
pub open spec fn entries_bytes(list: Seq<Entry>) -> Seq<u8>
    decreases list.len(),
{
    if list.len() == 0 {
        Seq::<u8>::empty()
    } else {
        list[0].bytes() + entries_bytes(list.skip(1))
    }
}

/// A header of a version, with so many tensors announced and with entries.
pub open spec fn written(version: nat, tensors: nat, list: Seq<Entry>) -> Seq<u8> {
    seq![0x47u8, 0x47, 0x55, 0x46] + (little(version, 4) + (little(tensors, 8) + (little(
        list.len(),
        8,
    ) + entries_bytes(list))))
}

/// Whether entry `i` is the last that gives its key a value.
pub open spec fn last_word(list: Seq<Entry>, i: int, key: Seq<char>) -> bool {
    0 <= i < list.len() && list[i].says(key) && forall|j: int|
        i < j < list.len() ==> !(#[trigger] list[j]).says(key)
}

// --- numbers -----------------------------------------------------------------

/// Whether bytes stand at a position.
spec fn stands(b: Seq<u8>, p: int, x: Seq<u8>) -> bool {
    0 <= p && p + x.len() <= b.len() && b.subrange(p, p + x.len()) == x
}

proof fn lemma_stands_parts(b: Seq<u8>, p: int, x: Seq<u8>, y: Seq<u8>)
    requires
        stands(b, p, x + y),
    ensures
        stands(b, p, x),
        stands(b, p + x.len(), y),
{
    let all = x + y;
    assert(b.subrange(p, p + x.len()) =~= x) by {
        assert forall|i: int| 0 <= i < x.len() implies b[p + i] == x[i] by {
            assert(b.subrange(p, p + all.len())[i] == all[i]);
        }
    }
    assert(b.subrange(p + x.len(), p + x.len() + y.len()) =~= y) by {
        assert forall|i: int| 0 <= i < y.len() implies b[p + x.len() + i] == y[i] by {
            assert(b.subrange(p, p + all.len())[x.len() + i] == all[x.len() + i]);
        }
    }
}

proof fn lemma_stands_byte(b: Seq<u8>, p: int, x: Seq<u8>, i: int)
    requires
        stands(b, p, x),
        0 <= i < x.len(),
    ensures
        b[p + i] == x[i],
{
    assert(b.subrange(p, p + x.len())[i] == x[i]);
}

proof fn lemma_little_len(n: nat, width: nat)
    ensures
        little(n, width).len() == width,
    decreases width,
{
    if width > 0 {
        lemma_little_len(n / 256, (width - 1) as nat);
    }
}

proof fn lemma_little_byte(n: nat, width: nat)
    requires
        width > 0,
    ensures
        little(n, width)[0] == (n % 256) as u8,
        little(n, width).skip(1) == little(n / 256, (width - 1) as nat),
{
    lemma_little_len(n / 256, (width - 1) as nat);
    assert(little(n, width).skip(1) =~= little(n / 256, (width - 1) as nat));
}

proof fn lemma_u32(b: Seq<u8>, p: int, n: nat)
    requires
        stands(b, p, little(n, 4)),
        n < 0x1_0000_0000,
    ensures
        u32_at(b, p) == n,
{
    lemma_little_len(n, 4);
    lemma_four(b, p, n, little(n, 4));
}

proof fn lemma_four(b: Seq<u8>, p: int, n: nat, x: Seq<u8>)
    requires
        stands(b, p, x),
        x.len() >= 4,
        x == little(n, x.len()),
    ensures
        u32_at(b, p) == n % 0x1_0000_0000,
{
    let w = x.len();
    let a1 = n / 256;
    let a2 = a1 / 256;
    let a3 = a2 / 256;
    lemma_little_byte(n, w);
    lemma_little_byte(a1, (w - 1) as nat);
    lemma_little_byte(a2, (w - 2) as nat);
    lemma_little_byte(a3, (w - 3) as nat);
    assert(x[1] == x.skip(1)[0]);
    assert(x[2] == x.skip(1).skip(1)[0]);
    assert(x[3] == x.skip(1).skip(1).skip(1)[0]);
    lemma_stands_byte(b, p, x, 0);
    lemma_stands_byte(b, p, x, 1);
    lemma_stands_byte(b, p, x, 2);
    lemma_stands_byte(b, p, x, 3);
    assert(n == 256 * a1 + n % 256);
    assert(a1 == 256 * a2 + a1 % 256);
    assert(a2 == 256 * a3 + a2 % 256);
    assert(a3 == 256 * (a3 / 256) + a3 % 256);
    let low = n % 256 + 256 * (a1 % 256) + 65_536 * (a2 % 256) + 16_777_216 * (a3 % 256);
    assert(n == 0x1_0000_0000 * (a3 / 256) + low);
    assert(low < 0x1_0000_0000);
    assert(n % 0x1_0000_0000 == low);
}

proof fn lemma_u64(b: Seq<u8>, p: int, n: nat)
    requires
        stands(b, p, little(n, 8)),
        n < 0x1_0000_0000_0000_0000,
    ensures
        u64_at(b, p) == n,
{
    let x = little(n, 8);
    lemma_little_len(n, 8);
    lemma_four(b, p, n, x);
    let a1 = n / 256;
    let a2 = a1 / 256;
    let a3 = a2 / 256;
    let a4 = a3 / 256;
    lemma_little_byte(n, 8);
    lemma_little_byte(a1, 7);
    lemma_little_byte(a2, 6);
    lemma_little_byte(a3, 5);
    let y = x.skip(1).skip(1).skip(1).skip(1);
    assert(y == little(a4, 4));
    assert(y =~= x.skip(4));
    assert(x.take(4) + y =~= x);
    lemma_stands_parts(b, p, x.take(4), y);
    lemma_little_len(a4, 4);
    lemma_four(b, p + 4, a4, y);
    assert(a4 == n / 0x1_0000_0000);
    assert(a4 < 0x1_0000_0000);
    assert(n == 0x1_0000_0000 * a4 + n % 0x1_0000_0000);
}

// --- values ------------------------------------------------------------------

proof fn lemma_text(b: Seq<u8>, p: int, t: Seq<u8>)
    requires
        stands(b, p, text_bytes(t)),
        t.len() <= longest(),
    ensures
        string_at(b, p) == Ok::<(Seq<u8>, int), GgufError>((t, p + 8 + t.len())),
        text_bytes(t).len() == 8 + t.len(),
{
    lemma_little_len(t.len(), 8);
    lemma_stands_parts(b, p, little(t.len(), 8), t);
    lemma_u64(b, p, t.len());
}

proof fn lemma_texts(b: Seq<u8>, p: int, texts: Seq<Seq<u8>>)
    requires
        stands(b, p, texts_bytes(texts)),
        texts.len() <= u64::MAX,
        forall|i: int| 0 <= i < texts.len() ==> (#[trigger] texts[i]).len() <= u64::MAX,
    ensures
        skip_strings(b, p, texts.len() as u64) == Ok::<int, GgufError>(
            p + texts_bytes(texts).len(),
        ),
    decreases texts.len(),
{
    if texts.len() > 0 {
        let t = texts[0];
        let rest = texts.skip(1);
        lemma_little_len(t.len(), 8);
        lemma_stands_parts(b, p, text_bytes(t), texts_bytes(rest));
        lemma_stands_parts(b, p, little(t.len(), 8), t);
        lemma_u64(b, p, t.len());
        assert forall|i: int| 0 <= i < rest.len() implies (#[trigger] rest[i]).len() <= u64::MAX by {
            assert(rest[i] == texts[i + 1]);
        }
        lemma_texts(b, p + text_bytes(t).len(), rest);
    }
}

proof fn lemma_small(b: Seq<u8>, p: int, n: nat, width: nat)
    requires
        stands(b, p, little(n, width)),
        width == 1 || width == 2,
        n < if width == 1 {
            0x100nat
        } else {
            0x1_0000nat
        },
    ensures
        width == 1 ==> b[p] == n,
        width == 2 ==> b[p] + 256 * b[p + 1] == n,
{
    lemma_little_len(n, width);
    lemma_little_byte(n, width);
    lemma_stands_byte(b, p, little(n, width), 0);
    if width == 2 {
        lemma_little_byte(n / 256, 1);
        lemma_stands_byte(b, p, little(n, 2), 1);
        assert(little(n, 2)[1] == little(n, 2).skip(1)[0]);
    }
}

proof fn lemma_number(b: Seq<u8>, p: int, t: Number, bits: nat)
    requires
        stands(b, p, little(bits, t.width())),
        bits < t.range(),
    ensures
        value_at(b, p, t.tag() as u32) == Ok::<(Option<ScalarView>, int), GgufError>(
            (Value::One(t, bits).meaning(), p + t.width()),
        ),
{
    lemma_little_len(bits, t.width());
    if t.width() <= 2 {
        lemma_small(b, p, bits, t.width());
    } else if t.width() == 4 {
        lemma_u32(b, p, bits);
    } else {
        lemma_u64(b, p, bits);
    }
    assert(fixed_size(t.tag() as u32) == Some(t.width() as u64));
}

proof fn lemma_value(b: Seq<u8>, p: int, v: Value)
    requires
        stands(b, p, v.bytes()),
        v.fits(),
    ensures
        value_at(b, p, v.tag() as u32) == Ok::<(Option<ScalarView>, int), GgufError>(
            (v.meaning(), p + v.bytes().len()),
        ),
{
    match v {
        Value::One(t, bits) => {
            lemma_little_len(bits, t.width());
            lemma_number(b, p, t, bits);
        },
        Value::Text(t) => {
            lemma_text(b, p, t);
        },
        Value::Many(t, count, raw) => {
            let start = little(t.tag(), 4) + little(count, 8);
            lemma_little_len(t.tag(), 4);
            lemma_little_len(count, 8);
            lemma_stands_parts(b, p, start, raw);
            lemma_stands_parts(b, p, little(t.tag(), 4), little(count, 8));
            assert(count <= u64::MAX) by (nonlinear_arith)
                requires
                    count * t.width() <= u64::MAX,
                    t.width() >= 1,
            ;
            lemma_u32(b, p, t.tag());
            lemma_u64(b, p + 4, count);
            assert(fixed_size(t.tag() as u32) == Some(t.width() as u64));
            assert(saturating_product(count as u64, t.width() as u64) == count * t.width());
        },
        Value::Texts(texts) => {
            let start = little(8, 4) + little(texts.len(), 8);
            lemma_little_len(8, 4);
            lemma_little_len(texts.len(), 8);
            lemma_stands_parts(b, p, start, texts_bytes(texts));
            lemma_stands_parts(b, p, little(8, 4), little(texts.len(), 8));
            lemma_u32(b, p, 8);
            lemma_u64(b, p + 4, texts.len());
            lemma_texts(b, p + 12, texts);
        },
    }
}

// --- entries -----------------------------------------------------------------

/// What is kept of entries, one after the other.
spec fn taken(seen: Seen, list: Seq<Entry>) -> Seen
    decreases list.len(),
{
    if list.len() == 0 {
        seen
    } else {
        taken(
            match list[0].value.meaning() {
                Some(v) => seen_with(seen, lossy(list[0].key), v),
                None => seen,
            },
            list.skip(1),
        )
    }
}

proof fn lemma_entries(b: Seq<u8>, p: int, list: Seq<Entry>, seen: Seen)
    requires
        stands(b, p, entries_bytes(list)),
        list.len() <= u64::MAX,
        forall|i: int| 0 <= i < list.len() ==> (#[trigger] list[i]).fits(),
    ensures
        entries(b, p, list.len() as u64, seen) == Ok::<Seen, GgufError>(taken(seen, list)),
    decreases list.len(),
{
    if list.len() > 0 {
        let e = list[0];
        let rest = list.skip(1);
        assert(e.fits());
        lemma_stands_parts(b, p, e.bytes(), entries_bytes(rest));
        lemma_stands_parts(
            b,
            p,
            text_bytes(e.key),
            little(e.value.tag(), 4) + e.value.bytes(),
        );
        lemma_text(b, p, e.key);
        let q = p + 8 + e.key.len();
        lemma_stands_parts(b, q, little(e.value.tag(), 4), e.value.bytes());
        lemma_little_len(e.value.tag(), 4);
        lemma_u32(b, q, e.value.tag());
        lemma_value(b, q + 4, e.value);
        assert forall|i: int| 0 <= i < rest.len() implies (#[trigger] rest[i]).fits() by {
            assert(rest[i] == list[i + 1]);
        }
        let next = match e.value.meaning() {
            Some(v) => seen_with(seen, lossy(e.key), v),
            None => seen,
        };
        lemma_entries(b, p + e.bytes().len(), rest, next);
    }
}

proof fn lemma_put_lookup(kept: Seq<(Seq<char>, ScalarView)>, key: Seq<char>, value: ScalarView, other: Seq<char>)
    ensures
        lookup(put(kept, key, value), other) == if other == key {
            Some(value)
        } else {
            lookup(kept, other)
        },
    decreases kept.len(),
{
    if kept.len() > 0 {
        let rest = kept.skip(1);
        lemma_put_lookup(rest, key, value, other);
        let out = put(kept, key, value);
        if kept[0].0 == key {
            assert(out[0] == (key, value));
            assert(out.skip(1) =~= rest);
        } else {
            assert(out[0] == kept[0]);
            assert(out.skip(1) =~= put(rest, key, value));
        }
    } else {
        let out = put(kept, key, value);
        assert(out.skip(1) =~= Seq::<(Seq<char>, ScalarView)>::empty());
        assert(out[0] == (key, value));
        assert(lookup(out.skip(1), other) is None);
    }
}

/// The last value that entries give a key, or the one from before.
spec fn final_word(list: Seq<Entry>, key: Seq<char>, before: Option<ScalarView>) -> Option<ScalarView>
    decreases list.len(),
{
    if list.len() == 0 {
        before
    } else if list.last().says(key) {
        list.last().value.meaning()
    } else {
        final_word(list.drop_last(), key, before)
    }
}

proof fn lemma_final_word_front(list: Seq<Entry>, key: Seq<char>, before: Option<ScalarView>)
    requires
        list.len() > 0,
    ensures
        final_word(list, key, before) == final_word(
            list.skip(1),
            key,
            if list[0].says(key) {
                list[0].value.meaning()
            } else {
                before
            },
        ),
    decreases list.len(),
{
    if list.len() > 1 {
        lemma_final_word_front(list.drop_last(), key, before);
        assert(list.skip(1).drop_last() =~= list.drop_last().skip(1));
        assert(list.skip(1).last() == list.last());
    } else {
        assert(list.drop_last() =~= Seq::<Entry>::empty());
        assert(list.skip(1) =~= Seq::<Entry>::empty());
    }
}

proof fn lemma_taken_lookup(seen: Seen, list: Seq<Entry>, key: Seq<char>)
    requires
        is_kept(key),
    ensures
        lookup(taken(seen, list).kept, key) == final_word(list, key, lookup(seen.kept, key)),
    decreases list.len(),
{
    if list.len() > 0 {
        let e = list[0];
        lemma_final_word_front(list, key, lookup(seen.kept, key));
        if let Some(v) = e.value.meaning() {
            lemma_put_lookup(seen.kept, lossy(e.key), v, key);
            lemma_taken_lookup(seen_with(seen, lossy(e.key), v), list.skip(1), key);
        } else {
            lemma_taken_lookup(seen, list.skip(1), key);
        }
    }
}

proof fn lemma_taken_block(seen: Seen, list: Seq<Entry>)
    ensures
        taken(seen, list).block_size == match final_word(
            list,
            "dflash.block_size"@,
            match seen.block_size {
                Some(n) => Some(ScalarView::U(n)),
                None => None,
            },
        ) {
            Some(v) => v.number(),
            None => None,
        },
    decreases list.len(),
{
    let key = "dflash.block_size"@;
    let before = match seen.block_size {
        Some(n) => Some(ScalarView::U(n)),
        None => None,
    };
    if list.len() > 0 {
        let e = list[0];
        let rest = list.skip(1);
        lemma_final_word_front(list, key, before);
        match e.value.meaning() {
            Some(v) => {
                let next = seen_with(seen, lossy(e.key), v);
                lemma_taken_block(next, rest);
                if e.says(key) && v.number() is None {
                    lemma_final_word_kinds(rest, key, Some(v));
                }
            },
            None => {
                lemma_taken_block(seen, rest);
            },
        }
    }
}

/// A text from before counts like nothing, where numbers are asked for.
proof fn lemma_final_word_kinds(list: Seq<Entry>, key: Seq<char>, before: Option<ScalarView>)
    requires
        before is Some,
        before->0.number() is None,
    ensures
        (match final_word(list, key, before) {
            Some(v) => v.number(),
            None => None,
        }) == (match final_word(list, key, None) {
            Some(v) => v.number(),
            None => None,
        }),
    decreases list.len(),
{
    if list.len() > 0 {
        lemma_final_word_kinds(list.drop_last(), key, before);
    }
}

proof fn lemma_final_word(list: Seq<Entry>, key: Seq<char>)
    ensures
        forall|i: int|
            last_word(list, i, key) ==> final_word(list, key, None) == #[trigger] list[i].value.meaning(),
        (forall|i: int| 0 <= i < list.len() ==> !(#[trigger] list[i]).says(key)) ==> final_word(
            list,
            key,
            None,
        ) is None,
    decreases list.len(),
{
    if list.len() > 0 {
        let less = list.drop_last();
        lemma_final_word(less, key);
        assert forall|i: int| last_word(list, i, key) implies final_word(list, key, None)
            == #[trigger] list[i].value.meaning() by {
            if i < less.len() {
                assert(!list[list.len() - 1].says(key));
                assert(less[i] == list[i]);
                assert(last_word(less, i, key)) by {
                    assert forall|j: int| i < j < less.len() implies !(#[trigger] less[j]).says(
                        key,
                    ) by {
                        assert(less[j] == list[j]);
                    }
                }
                assert(less[i].value.meaning() == list[i].value.meaning());
            }
        }
        if forall|i: int| 0 <= i < list.len() ==> !(#[trigger] list[i]).says(key) {
            assert(!list[list.len() - 1].says(key));
            assert forall|i: int| 0 <= i < less.len() implies !(#[trigger] less[i]).says(key) by {
                assert(less[i] == list[i]);
            }
        }
    }
}

proof fn lemma_taken_flags(seen: Seen, list: Seq<Entry>)
    ensures
        taken(seen, list).chat_template == (seen.chat_template || exists|i: int|
            0 <= i < list.len() && (#[trigger] list[i]).says("tokenizer.chat_template"@)),
        taken(seen, list).mtp == (seen.mtp || exists|i: int|
            0 <= i < list.len() && counts_layers(#[trigger] list[i])),
    decreases list.len(),
{
    if list.len() > 0 {
        let e = list[0];
        let rest = list.skip(1);
        let next = match e.value.meaning() {
            Some(v) => seen_with(seen, lossy(e.key), v),
            None => seen,
        };
        lemma_taken_flags(next, rest);
        let key = "tokenizer.chat_template"@;
        assert(next.chat_template == (seen.chat_template || e.says(key)));
        assert(next.mtp == (seen.mtp || counts_layers(e)));
        if exists|i: int| 0 <= i < list.len() && (#[trigger] list[i]).says(key) {
            let i = choose|i: int| 0 <= i < list.len() && (#[trigger] list[i]).says(key);
            if i > 0 {
                assert(rest[i - 1] == list[i]);
            }
        }
        if exists|i: int| 0 <= i < rest.len() && (#[trigger] rest[i]).says(key) {
            let i = choose|i: int| 0 <= i < rest.len() && (#[trigger] rest[i]).says(key);
            assert(list[i + 1] == rest[i]);
        }
        if exists|i: int| 0 <= i < list.len() && counts_layers(#[trigger] list[i]) {
            let i = choose|i: int| 0 <= i < list.len() && counts_layers(#[trigger] list[i]);
            if i > 0 {
                assert(rest[i - 1] == list[i]);
            }
        }
        if exists|i: int| 0 <= i < rest.len() && counts_layers(#[trigger] rest[i]) {
            let i = choose|i: int| 0 <= i < rest.len() && counts_layers(#[trigger] rest[i]);
            assert(list[i + 1] == rest[i]);
        }
    }
}

/// Whether an entry says that a model predicts several tokens: it gives a number of
/// layers for that, and not none.
pub open spec fn counts_layers(e: Entry) -> bool {
    ".nextn_predict_layers"@.is_suffix_of(lossy(e.key)) && match e.value.meaning() {
        Some(ScalarView::U(n)) => n > 0,
        _ => false,
    }
}

/// Whether an entry states a context length, for whatever architecture.
pub open spec fn states_context(e: Entry) -> bool {
    ".context_length"@.is_suffix_of(lossy(e.key)) && e.value.meaning() is Some
}

/// Whether what is kept stems from entries.
spec fn stems(kept: Seq<(Seq<char>, ScalarView)>, list: Seq<Entry>) -> bool {
    forall|k: int|
        0 <= k < kept.len() ==> exists|i: int|
            0 <= i < list.len() && lossy((#[trigger] list[i]).key) == (#[trigger] kept[k]).0
                && list[i].value.meaning() == Some(kept[k].1)
}

proof fn lemma_put_members(kept: Seq<(Seq<char>, ScalarView)>, key: Seq<char>, value: ScalarView)
    ensures
        forall|k: int|
            0 <= k < put(kept, key, value).len() ==> (#[trigger] put(kept, key, value)[k]) == (
                key,
                value,
            ) || kept.contains(put(kept, key, value)[k]),
    decreases kept.len(),
{
    let out = put(kept, key, value);
    if kept.len() > 0 {
        let rest = kept.skip(1);
        lemma_put_members(rest, key, value);
        assert forall|k: int| 0 <= k < out.len() implies (#[trigger] out[k]) == (key, value)
            || kept.contains(out[k]) by {
            if kept[0].0 == key {
                if k > 0 {
                    assert(out[k] == kept[k]);
                }
            } else if k == 0 {
                assert(out[0] == kept[0]);
            } else {
                let less = put(rest, key, value);
                assert(out[k] == less[k - 1]);
                if less[k - 1] != (key, value) {
                    let j = choose|j: int| 0 <= j < rest.len() && rest[j] == less[k - 1];
                    assert(kept[j + 1] == out[k]);
                }
            }
        }
    }
}

proof fn lemma_taken_stems(seen: Seen, done: Seq<Entry>, list: Seq<Entry>)
    requires
        stems(seen.kept, done),
    ensures
        stems(taken(seen, list).kept, done + list),
    decreases list.len(),
{
    if list.len() > 0 {
        let e = list[0];
        let now = done.push(e);
        let next = match e.value.meaning() {
            Some(v) => seen_with(seen, lossy(e.key), v),
            None => seen,
        };
        if let Some(v) = e.value.meaning() {
            lemma_put_members(seen.kept, lossy(e.key), v);
        }
        assert forall|k: int| 0 <= k < next.kept.len() implies exists|i: int|
            0 <= i < now.len() && lossy((#[trigger] now[i]).key) == (#[trigger] next.kept[k]).0
                && now[i].value.meaning() == Some(next.kept[k].1) by {
            if e.value.meaning() is Some && next.kept[k] == (lossy(e.key), e.value.meaning()->0) {
                assert(now[done.len() as int] == e);
            } else {
                assert(seen.kept.contains(next.kept[k]));
                let j = choose|j: int| 0 <= j < seen.kept.len() && seen.kept[j] == next.kept[k];
                let i = choose|i: int|
                    0 <= i < done.len() && lossy((#[trigger] done[i]).key) == seen.kept[j].0
                        && done[i].value.meaning() == Some(seen.kept[j].1);
                assert(now[i] == done[i]);
            }
        }
        lemma_taken_stems(next, now, list.skip(1));
        assert(now + list.skip(1) =~= done + list);
    } else {
        assert(done + list =~= done);
    }
}

proof fn lemma_any_context(kept: Seq<(Seq<char>, ScalarView)>, list: Seq<Entry>)
    requires
        stems(kept, list),
    ensures
        any_context(kept) is Some ==> exists|i: int|
            0 <= i < list.len() && states_context(#[trigger] list[i]) && list[i].value.meaning()
                == any_context(kept),
    decreases kept.len(),
{
    if kept.len() > 0 {
        if ".context_length"@.is_suffix_of(kept[0].0) {
            let i = choose|i: int|
                0 <= i < list.len() && lossy((#[trigger] list[i]).key) == kept[0].0
                    && list[i].value.meaning() == Some(kept[0].1);
            assert(states_context(list[i]));
        } else {
            let rest = kept.skip(1);
            assert(stems(rest, list)) by {
                assert forall|k: int| 0 <= k < rest.len() implies exists|i: int|
                    0 <= i < list.len() && lossy((#[trigger] list[i]).key) == (#[trigger] rest[k]).0
                        && list[i].value.meaning() == Some(rest[k].1) by {
                    assert(rest[k] == kept[k + 1]);
                }
            }
            lemma_any_context(rest, list);
        }
    }
}

proof fn lemma_lookup_is_some_context(kept: Seq<(Seq<char>, ScalarView)>, key: Seq<char>)
    requires
        ".context_length"@.is_suffix_of(key),
        lookup(kept, key) is Some,
    ensures
        any_context(kept) is Some,
    decreases kept.len(),
{
    if kept.len() > 0 && kept[0].0 != key && !".context_length"@.is_suffix_of(kept[0].0) {
        lemma_lookup_is_some_context(kept.skip(1), key);
    }
}

// --- reading what was written --------------------------------------------------

proof fn lemma_written(version: nat, tensors: nat, list: Seq<Entry>, more: Seq<u8>)
    requires
        2 <= version < 0x1_0000_0000,
        tensors <= u64::MAX,
        list.len() <= u64::MAX,
        forall|i: int| 0 <= i < list.len() ==> (#[trigger] list[i]).fits(),
    ensures
        header(written(version, tensors, list) + more) == Ok::<InfoView, GgufError>(
            info_of(taken(nothing_seen(), list)),
        ),
{
    let b = written(version, tensors, list) + more;
    let magic = seq![0x47u8, 0x47, 0x55, 0x46];
    let counted = little(list.len(), 8) + entries_bytes(list);
    let announced = little(tensors, 8) + counted;
    let versioned = little(version, 4) + announced;
    assert(b.subrange(0, written(version, tensors, list).len() as int) =~= written(
        version,
        tensors,
        list,
    ));
    lemma_stands_parts(b, 0, magic, versioned);
    lemma_stands_byte(b, 0, magic, 0);
    lemma_stands_byte(b, 0, magic, 1);
    lemma_stands_byte(b, 0, magic, 2);
    lemma_stands_byte(b, 0, magic, 3);
    lemma_little_len(version, 4);
    lemma_little_len(tensors, 8);
    lemma_little_len(list.len(), 8);
    lemma_stands_parts(b, 4, little(version, 4), announced);
    lemma_u32(b, 4, version);
    lemma_stands_parts(b, 8, little(tensors, 8), counted);
    lemma_stands_parts(b, 16, little(list.len(), 8), entries_bytes(list));
    lemma_u64(b, 16, list.len());
    lemma_entries(b, 24, list, nothing_seen());
    assert(has_magic(b));
}

/// Reading a header gives back what was written, whatever follows it: of each key the
/// last value that is taken in, in any type and past any number, text or array.
pub proof fn law_reading_undoes_writing(version: nat, tensors: nat, list: Seq<Entry>, more: Seq<u8>)
    requires
        2 <= version < 0x1_0000_0000,
        tensors <= u64::MAX,
        list.len() <= u64::MAX,
        forall|i: int| 0 <= i < list.len() ==> (#[trigger] list[i]).fits(),
    ensures
        header(written(version, tensors, list) + more) is Ok,
        ({
            let info = header(written(version, tensors, list) + more)->Ok_0;
            &&& forall|i: int|
                last_word(list, i, "general.architecture"@) ==> info.architecture == (
                #[trigger] list[i].value.meaning())->0.text()
            &&& (forall|i: int|
                0 <= i < list.len() ==> !(#[trigger] list[i]).says("general.architecture"@))
                ==> info.architecture is None
            &&& forall|i: int|
                info.architecture is Some && last_word(
                    list,
                    i,
                    info.architecture->0 + ".context_length"@,
                ) ==> info.context_length == (#[trigger] list[i].value.meaning())->0.number()
            &&& info.context_length is Some ==> exists|i: int|
                0 <= i < list.len() && states_context(#[trigger] list[i])
                    && list[i].value.meaning() == Some(ScalarView::U(info.context_length->0))
            &&& forall|i: int|
                last_word(list, i, "general.file_type"@) ==> info.file_type_label == match (
                #[trigger] list[i].value.meaning())->0 {
                    ScalarView::U(n) => type_label(n),
                    ScalarView::S(_) => None,
                }
            &&& info.has_chat_template == (exists|i: int|
                0 <= i < list.len() && (#[trigger] list[i]).says("tokenizer.chat_template"@))
            &&& info.has_mtp == (exists|i: int|
                0 <= i < list.len() && counts_layers(#[trigger] list[i]))
            &&& forall|i: int|
                last_word(list, i, "dflash.block_size"@) ==> info.block_size == (
                #[trigger] list[i].value.meaning())->0.number()
            &&& (forall|i: int|
                0 <= i < list.len() ==> !(#[trigger] list[i]).says("dflash.block_size"@))
                ==> info.block_size is None
        }),
{
    lemma_written(version, tensors, list, more);
    let seen = taken(nothing_seen(), list);
    let info = info_of(seen);
    lemma_taken_lookup(nothing_seen(), list, "general.architecture"@);
    lemma_taken_lookup(nothing_seen(), list, "general.file_type"@);
    lemma_final_word(list, "general.architecture"@);
    lemma_final_word(list, "general.file_type"@);
    lemma_final_word(list, "dflash.block_size"@);
    lemma_taken_block(nothing_seen(), list);
    lemma_taken_flags(nothing_seen(), list);
    if let Some(a) = info.architecture {
        let key = a + ".context_length"@;
        assert(key.skip(key.len() - ".context_length"@.len()) =~= ".context_length"@);
        assert(".context_length"@.is_suffix_of(key));
        lemma_taken_lookup(nothing_seen(), list, key);
        lemma_final_word(list, key);
        if lookup(seen.kept, key) is Some {
            lemma_final_word_is_said(list, key);
        }
    }
    let none = Seq::<Entry>::empty();
    assert(stems(nothing_seen().kept, none));
    lemma_taken_stems(nothing_seen(), none, list);
    assert(none + list =~= list);
    lemma_any_context(seen.kept, list);
}

proof fn lemma_final_word_is_said(list: Seq<Entry>, key: Seq<char>)
    requires
        final_word(list, key, None) is Some,
    ensures
        exists|i: int|
            0 <= i < list.len() && (#[trigger] list[i]).says(key) && list[i].value.meaning()
                == final_word(list, key, None),
    decreases list.len(),
{
    if list.len() > 0 {
        if list.last().says(key) {
            assert(list[list.len() - 1].says(key));
        } else {
            lemma_final_word_is_said(list.drop_last(), key);
            let i = choose|i: int|
                0 <= i < list.drop_last().len() && (#[trigger] list.drop_last()[i]).says(key)
                    && list.drop_last()[i].value.meaning() == final_word(
                    list.drop_last(),
                    key,
                    None,
                );
            assert(list[i] == list.drop_last()[i]);
        }
    }
}

/// A context length counts whatever architecture it is stated for: where all entries
/// that state one state the same, the model has it.
pub proof fn law_a_stated_context_counts(version: nat, tensors: nat, list: Seq<Entry>, more: Seq<u8>, i: int, n: u64)
    requires
        2 <= version < 0x1_0000_0000,
        tensors <= u64::MAX,
        list.len() <= u64::MAX,
        forall|k: int| 0 <= k < list.len() ==> (#[trigger] list[k]).fits(),
        0 <= i < list.len(),
        states_context(list[i]),
        forall|k: int|
            0 <= k < list.len() && states_context(#[trigger] list[k]) ==> list[k].value.meaning()
                == Some(ScalarView::U(n)),
    ensures
        header(written(version, tensors, list) + more) is Ok,
        header(written(version, tensors, list) + more)->Ok_0.context_length == Some(n),
{
    lemma_written(version, tensors, list, more);
    law_reading_undoes_writing(version, tensors, list, more);
    let seen = taken(nothing_seen(), list);
    let info = info_of(seen);
    let key = lossy(list[i].key);
    assert(list[i].says(key));
    lemma_taken_lookup(nothing_seen(), list, key);
    lemma_final_word_is_some(list, key, i);
    lemma_lookup_is_some_context(seen.kept, key);
    let none = Seq::<Entry>::empty();
    assert(stems(nothing_seen().kept, none));
    lemma_taken_stems(nothing_seen(), none, list);
    assert(none + list =~= list);
    lemma_any_context(seen.kept, list);
    if let Some(a) = info.architecture {
        let own = a + ".context_length"@;
        assert(own.skip(own.len() - ".context_length"@.len()) =~= ".context_length"@);
        assert(".context_length"@.is_suffix_of(own));
        lemma_taken_lookup(nothing_seen(), list, own);
        if lookup(seen.kept, own) is Some {
            lemma_final_word_is_said(list, own);
        }
    }
}

proof fn lemma_final_word_is_some(list: Seq<Entry>, key: Seq<char>, i: int)
    requires
        0 <= i < list.len(),
        list[i].says(key),
    ensures
        final_word(list, key, None) is Some,
    decreases list.len(),
{
    if !list.last().says(key) {
        assert(list.drop_last()[i] == list[i]);
        lemma_final_word_is_some(list.drop_last(), key, i);
    }
}

/// What does not begin with the magic is no header, and the first version is not read.
pub proof fn law_other_files_are_refused(front: Seq<u8>, version: nat, more: Seq<u8>)
    requires
        front.len() == 4,
        version < 2,
    ensures
        front != seq![0x47u8, 0x47, 0x55, 0x46] ==> header(front + more) == Err::<
            InfoView,
            GgufError,
        >(GgufError::NotGguf),
        header(seq![0x47u8, 0x47, 0x55, 0x46] + little(version, 4) + more) == Err::<
            InfoView,
            GgufError,
        >(GgufError::UnsupportedVersion(version as u32)),
{
    let b = front + more;
    if has_magic(b) {
        assert(front =~= seq![0x47u8, 0x47, 0x55, 0x46]);
    }
    let c = seq![0x47u8, 0x47, 0x55, 0x46] + little(version, 4) + more;
    lemma_little_len(version, 4);
    assert(c.subrange(4, 8) =~= little(version, 4));
    lemma_u32(c, 4, version);
    assert(c[0] == 0x47 && c[1] == 0x47 && c[2] == 0x55 && c[3] == 0x46);
}

/// The file types that are known, each with its label.
pub open spec fn file_types() -> Seq<(u64, Seq<char>)> {
    seq![
        (0u64, "F32"@),
        (1u64, "F16"@),
        (2u64, "Q4_0"@),
        (3u64, "Q4_1"@),
        (7u64, "Q8_0"@),
        (8u64, "Q5_0"@),
        (9u64, "Q5_1"@),
        (10u64, "Q2_K"@),
        (11u64, "Q3_K_S"@),
        (12u64, "Q3_K_M"@),
        (13u64, "Q3_K_L"@),
        (14u64, "Q4_K_S"@),
        (15u64, "Q4_K_M"@),
        (16u64, "Q5_K_S"@),
        (17u64, "Q5_K_M"@),
        (18u64, "Q6_K"@),
        (19u64, "IQ2_XXS"@),
        (20u64, "IQ2_XS"@),
        (21u64, "Q2_K_S"@),
        (22u64, "IQ3_XS"@),
        (23u64, "IQ3_XXS"@),
        (24u64, "IQ1_S"@),
        (25u64, "IQ4_NL"@),
        (26u64, "IQ3_S"@),
        (27u64, "IQ3_M"@),
        (28u64, "IQ2_S"@),
        (29u64, "IQ2_M"@),
        (30u64, "IQ4_XS"@),
        (32u64, "BF16"@),
    ]
}

/// A file type has the label of its number, and one that is not known has none.
pub proof fn law_file_types_have_their_labels(n: u64)
    ensures
        forall|i: int|
            0 <= i < file_types().len() ==> type_label((#[trigger] file_types()[i]).0) == Some(
                file_types()[i].1,
            ),
        (forall|i: int| 0 <= i < file_types().len() ==> (#[trigger] file_types()[i]).0 != n)
            ==> type_label(n) is None,
{
    let all = file_types();
    if type_label(n) is Some {
        if n <= 3 {
            assert(all[n as int].0 == n);
        } else if n <= 30 {
            assert(all[n - 3].0 == n);
        } else {
            assert(all[28].0 == n);
        }
    }
}

} // verus!
