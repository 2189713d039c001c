//! The binary vector-tile decoder.
//!
//! A tile payload is a sequence of named layers; each layer carries an
//! extent, a key dictionary, a value dictionary and a list of features;
//! each feature carries a geometry class, tag index pairs into the
//! dictionaries, and a geometry command stream whose coordinates are
//! zigzag-encoded deltas.  Deltas are accumulated in an exact integer
//! cursor, so no drift can occur.  The wire grammar:
//!
//! ```text
//! tile    := layer_count:v layer*
//! layer   := name:str extent:v keys:dict values:dict feature_count:v feature*
//! dict    := count:v str*
//! str     := len:v byte*          len <= 65536, every byte < 128
//! feature := geom_type:v tag_count:v (key_index:v value_index:v)*
//!            cmd_count:v command*
//! command := word:v delta*        op = word % 8 (1 move, 2 line),
//!                                 run = word / 8 delta pairs follow
//! delta   := dx:v dy:v           zigzag-encoded
//! v       := LEB128 varint, 7 value bits per byte, low group first
//! ```
//!
//! The whole decode is rejected atomically: `Truncated` when the buffer
//! ends mid-structure, `InvalidTagIndex` when a tag points outside its
//! dictionary, and `Malformed` for everything else (an unknown command,
//! a stream that does not start with a move, an empty geometry, a
//! non-ASCII string, an out-of-range extent or coordinate, or trailing
//! bytes).  Every layer must declare the same extent.  A duplicate tag
//! key keeps the first occurrence.  The decoded result is a pure
//! function of the payload, the stylesheet and the zoom, so decoding
//! the same bytes twice gives structurally identical objects.

use vstd::prelude::*;
use crate::css::{Rule, Stylesheet, Tag, TagM, spec_resolve, tag_views, bytes_eq};
use crate::object::{
    COORD_LIMIT,
    Object,
    ObjectM,
    ObjectType,
    Point,
    object_views,
    objects_wf,
    point_views,
};

verus! {

/// Why a tile payload was rejected.
#[derive(Clone, Copy, Debug, PartialEq, Eq, Structural)]
pub enum DecodeError {
    /// The buffer ended in the middle of a structure.
    Truncated,
    /// A feature's tag referenced a dictionary entry that does not exist.
    InvalidTagIndex,
    /// The payload violates the grammar in any other way.
    Malformed,
}

/// Longest string (layer name, tag key or value) the format admits.
pub const MAX_STR_LEN: u64 = 65536;

/// Largest layer extent the format admits.
pub const MAX_EXTENT: u64 = 65536;

/// A varint continues while rest values stay below 2^57, so the
/// combined value fits in 64 bits.
pub const VARINT_REST_MAX: u64 = 0x0200_0000_0000_0000;

/// LEB128 varint at `i`: the value and the position after it.
pub open spec fn sp_varint(s: Seq<u8>, i: int) -> Result<(u64, int), DecodeError>
    decreases s.len() - i,
{
    if i < 0 || i >= s.len() {
        Err(DecodeError::Truncated)
    } else if s[i] < 128 {
        Ok((s[i] as u64, i + 1))
    } else {
        match sp_varint(s, i + 1) {
            Err(e) => Err(e),
            Ok((rest, j)) => if rest < VARINT_REST_MAX {
                Ok((((s[i] - 128) + 128 * rest) as u64, j))
            } else {
                Err(DecodeError::Malformed)
            },
        }
    }
}

/// Zigzag decoding: even varints are non-negative, odd are negative.
pub open spec fn sp_zigzag(v: u64) -> int {
    if v % 2 == 0 {
        (v / 2) as int
    } else {
        -((v / 2) as int) - 1
    }
}

/// A length-prefixed ASCII byte string.
pub open spec fn sp_str(s: Seq<u8>, i: int) -> Result<(Seq<u8>, int), DecodeError> {
    match sp_varint(s, i) {
        Err(e) => Err(e),
        Ok((len, j)) => if len > MAX_STR_LEN {
            Err(DecodeError::Malformed)
        } else if j + len > s.len() {
            Err(DecodeError::Truncated)
        } else if exists|k: int| j <= k < j + len && s[k] >= 128 {
            Err(DecodeError::Malformed)
        } else {
            Ok((s.subrange(j, j + len), j + len))
        },
    }
}

/// A dictionary: `count` strings appended to `acc`.
pub open spec fn sp_dict(s: Seq<u8>, i: int, count: nat, acc: Seq<Seq<u8>>) -> Result<
    (Seq<Seq<u8>>, int),
    DecodeError,
>
    decreases count,
{
    if count == 0 {
        Ok((acc, i))
    } else {
        match sp_str(s, i) {
            Err(e) => Err(e),
            Ok((b, j)) => sp_dict(s, j, (count - 1) as nat, acc.push(b)),
        }
    }
}

/// Whether a tag list already holds `key`.
pub open spec fn tagm_has_key(tags: Seq<TagM>, key: Seq<u8>) -> bool {
    exists|i: int| 0 <= i < tags.len() && (#[trigger] tags[i]).key == key
}

/// Tag keys pairwise distinct.
pub open spec fn tagm_unique(tags: Seq<TagM>) -> bool {
    forall|i: int, j: int|
        0 <= i < j < tags.len() ==> (#[trigger] tags[i]).key != (#[trigger] tags[j]).key
}

/// `count` tag index pairs resolved against the dictionaries and
/// appended to `acc`; a duplicate key keeps the first occurrence.
pub open spec fn sp_tags(
    s: Seq<u8>,
    i: int,
    count: nat,
    keys: Seq<Seq<u8>>,
    vals: Seq<Seq<u8>>,
    acc: Seq<TagM>,
) -> Result<(Seq<TagM>, int), DecodeError>
    decreases count,
{
    if count == 0 {
        Ok((acc, i))
    } else {
        match sp_varint(s, i) {
            Err(e) => Err(e),
            Ok((ki, j1)) => match sp_varint(s, j1) {
                Err(e) => Err(e),
                Ok((vi, j2)) => if ki >= keys.len() || vi >= vals.len() {
                    Err(DecodeError::InvalidTagIndex)
                } else if tagm_has_key(acc, keys[ki as int]) {
                    sp_tags(s, j2, (count - 1) as nat, keys, vals, acc)
                } else {
                    sp_tags(
                        s,
                        j2,
                        (count - 1) as nat,
                        keys,
                        vals,
                        acc.push(TagM { key: keys[ki as int], value: vals[vi as int] }),
                    )
                },
            },
        }
    }
}

/// Points within the bound the object model demands.
pub open spec fn points_bounded(points: Seq<(int, int)>) -> bool {
    forall|k: int|
        0 <= k < points.len() ==> -COORD_LIMIT <= (#[trigger] points[k]).0 <= COORD_LIMIT
            && -COORD_LIMIT <= points[k].1 <= COORD_LIMIT
}

/// `run` delta pairs accumulated exactly into the cursor `(cx, cy)`:
/// the extended point list, the final cursor and the final position.
pub open spec fn sp_deltas(
    s: Seq<u8>,
    i: int,
    run: nat,
    cx: int,
    cy: int,
    acc: Seq<(int, int)>,
) -> Result<(Seq<(int, int)>, int, int, int), DecodeError>
    decreases run,
{
    if run == 0 {
        Ok((acc, cx, cy, i))
    } else {
        match sp_varint(s, i) {
            Err(e) => Err(e),
            Ok((v1, j1)) => match sp_varint(s, j1) {
                Err(e) => Err(e),
                Ok((v2, j2)) => {
                    let nx = cx + sp_zigzag(v1);
                    let ny = cy + sp_zigzag(v2);
                    if nx < -COORD_LIMIT || nx > COORD_LIMIT || ny < -COORD_LIMIT || ny
                        > COORD_LIMIT {
                        Err(DecodeError::Malformed)
                    } else {
                        sp_deltas(s, j2, (run - 1) as nat, nx, ny, acc.push((nx, ny)))
                    }
                },
            },
        }
    }
}

/// `cmd_count` geometry commands: each is an op word (move or line;
/// the first must be a move) followed by its run of deltas.  The
/// finished geometry must hold at least one point.
pub open spec fn sp_cmds(
    s: Seq<u8>,
    i: int,
    cmd_count: nat,
    first: bool,
    cx: int,
    cy: int,
    acc: Seq<(int, int)>,
) -> Result<(Seq<(int, int)>, int), DecodeError>
    decreases cmd_count,
{
    if cmd_count == 0 {
        if acc.len() == 0 {
            Err(DecodeError::Malformed)
        } else {
            Ok((acc, i))
        }
    } else {
        match sp_varint(s, i) {
            Err(e) => Err(e),
            Ok((word, j)) => {
                let op = word % 8;
                let run = word / 8;
                if !(op == 1 || op == 2) {
                    Err(DecodeError::Malformed)
                } else if first && op != 1 {
                    Err(DecodeError::Malformed)
                } else {
                    match sp_deltas(s, j, run as nat, cx, cy, acc) {
                        Err(e) => Err(e),
                        Ok((acc2, cx2, cy2, j2)) => sp_cmds(
                            s,
                            j2,
                            (cmd_count - 1) as nat,
                            false,
                            cx2,
                            cy2,
                            acc2,
                        ),
                    }
                }
            },
        }
    }
}

/// One feature: geometry class, tags, geometry, and the selector the
/// cascade resolves for its tags at this zoom.
pub open spec fn sp_feature(
    s: Seq<u8>,
    i: int,
    keys: Seq<Seq<u8>>,
    vals: Seq<Seq<u8>>,
    rules: Seq<Rule>,
    zoom: u8,
) -> Result<(ObjectM, int), DecodeError> {
    match sp_varint(s, i) {
        Err(e) => Err(e),
        Ok((g, j0)) => if !(g == 1 || g == 2 || g == 3) {
            Err(DecodeError::Malformed)
        } else {
            let object_type = if g == 1 {
                ObjectType::Point
            } else if g == 2 {
                ObjectType::Line
            } else {
                ObjectType::Polygon
            };
            match sp_varint(s, j0) {
                Err(e) => Err(e),
                Ok((tag_count, j1)) => match sp_tags(
                    s,
                    j1,
                    tag_count as nat,
                    keys,
                    vals,
                    Seq::empty(),
                ) {
                    Err(e) => Err(e),
                    Ok((tags, j2)) => match sp_varint(s, j2) {
                        Err(e) => Err(e),
                        Ok((cmd_count, j3)) => match sp_cmds(
                            s,
                            j3,
                            cmd_count as nat,
                            true,
                            0,
                            0,
                            Seq::empty(),
                        ) {
                            Err(e) => Err(e),
                            Ok((points, j4)) => Ok(
                                (
                                    ObjectM {
                                        selector: spec_resolve(rules, tags, zoom),
                                        points,
                                        tags,
                                        object_type,
                                    },
                                    j4,
                                ),
                            ),
                        },
                    },
                },
            }
        },
    }
}

/// `count` features appended to `acc`.
pub open spec fn sp_features(
    s: Seq<u8>,
    i: int,
    count: nat,
    keys: Seq<Seq<u8>>,
    vals: Seq<Seq<u8>>,
    rules: Seq<Rule>,
    zoom: u8,
    acc: Seq<ObjectM>,
) -> Result<(Seq<ObjectM>, int), DecodeError>
    decreases count,
{
    if count == 0 {
        Ok((acc, i))
    } else {
        match sp_feature(s, i, keys, vals, rules, zoom) {
            Err(e) => Err(e),
            Ok((o, j)) => sp_features(s, j, (count - 1) as nat, keys, vals, rules, zoom, acc.push(o)),
        }
    }
}

/// One layer: name, extent, the two dictionaries and the features.
/// Every layer must declare the extent the first one declared.
pub open spec fn sp_layer(
    s: Seq<u8>,
    i: int,
    rules: Seq<Rule>,
    zoom: u8,
    ext: Option<int>,
    acc: Seq<ObjectM>,
) -> Result<(Seq<ObjectM>, Option<int>, int), DecodeError> {
    match sp_str(s, i) {
        Err(e) => Err(e),
        Ok((_name, j0)) => match sp_varint(s, j0) {
            Err(e) => Err(e),
            Ok((extent, j1)) => if extent < 1 || extent > MAX_EXTENT {
                Err(DecodeError::Malformed)
            } else if ext is Some && ext->0 != extent {
                Err(DecodeError::Malformed)
            } else {
                match sp_varint(s, j1) {
                    Err(e) => Err(e),
                    Ok((key_count, j2)) => match sp_dict(s, j2, key_count as nat, Seq::empty()) {
                        Err(e) => Err(e),
                        Ok((keys, j3)) => match sp_varint(s, j3) {
                            Err(e) => Err(e),
                            Ok((val_count, j4)) => match sp_dict(
                                s,
                                j4,
                                val_count as nat,
                                Seq::empty(),
                            ) {
                                Err(e) => Err(e),
                                Ok((vals, j5)) => match sp_varint(s, j5) {
                                    Err(e) => Err(e),
                                    Ok((feature_count, j6)) => match sp_features(
                                        s,
                                        j6,
                                        feature_count as nat,
                                        keys,
                                        vals,
                                        rules,
                                        zoom,
                                        acc,
                                    ) {
                                        Err(e) => Err(e),
                                        Ok((objs, j7)) => Ok((objs, Some(extent as int), j7)),
                                    },
                                },
                            },
                        },
                    },
                }
            },
        },
    }
}

/// `count` layers appended to `acc`.
pub open spec fn sp_layers(
    s: Seq<u8>,
    i: int,
    count: nat,
    rules: Seq<Rule>,
    zoom: u8,
    ext: Option<int>,
    acc: Seq<ObjectM>,
) -> Result<(Seq<ObjectM>, Option<int>, int), DecodeError>
    decreases count,
{
    if count == 0 {
        Ok((acc, ext, i))
    } else {
        match sp_layer(s, i, rules, zoom, ext, acc) {
            Err(e) => Err(e),
            Ok((objs, ext2, j)) => sp_layers(s, j, (count - 1) as nat, rules, zoom, ext2, objs),
        }
    }
}

/// Fallback extent of a tile with no layers.
pub const DEFAULT_EXTENT: u32 = 4096;

/// The whole payload: every layer's features in order, and the tile's
/// extent.  Trailing bytes are rejected.
pub open spec fn sp_tile(s: Seq<u8>, rules: Seq<Rule>, zoom: u8) -> Result<
    (Seq<ObjectM>, int),
    DecodeError,
> {
    match sp_varint(s, 0) {
        Err(e) => Err(e),
        Ok((layer_count, j)) => match sp_layers(
            s,
            j,
            layer_count as nat,
            rules,
            zoom,
            None,
            Seq::empty(),
        ) {
            Err(e) => Err(e),
            Ok((objs, ext, j2)) => if j2 != s.len() {
                Err(DecodeError::Malformed)
            } else {
                Ok(
                    (
                        objs,
                        match ext {
                            Some(e) => e,
                            None => DEFAULT_EXTENT as int,
                        },
                    ),
                )
            },
        },
    }
}

/// The mathematical values of a byte-string list.
pub open spec fn byte_views(v: Seq<Vec<u8>>) -> Seq<Seq<u8>> {
    v.map_values(|b: Vec<u8>| b@)
}

/// The spec-level extent argument an exec extent stands for.
pub open spec fn ext_view(e: Option<u32>) -> Option<int> {
    match e {
        Some(x) => Some(x as int),
        None => None,
    }
}

/// An element-wise copy of a byte string.
fn copy_bytes(v: &Vec<u8>) -> (r: Vec<u8>)
    ensures
        r@ == v@,
{
    let mut r: Vec<u8> = Vec::new();
    let mut i: usize = 0;
    while i < v.len()
        invariant
            i <= v@.len(),
            r@ == v@.subrange(0, i as int),
        decreases v@.len() - i,
    {
        r.push(v[i]);
        proof {
            assert(r@ =~= v@.subrange(0, i + 1 as int));
        }
        i = i + 1;
    }
    proof {
        assert(r@ =~= v@);
    }
    r
}

fn varint(data: &Vec<u8>, pos: usize) -> (r: Result<(u64, usize), DecodeError>)
    requires
        pos <= data@.len(),
    ensures
        (match r {
            Ok(t) => sp_varint(data@, pos as int) == Ok::<(u64, int), DecodeError>(
                (t.0, t.1 as int),
            ) && pos < t.1 <= data@.len(),
            Err(e) => sp_varint(data@, pos as int) == Err::<(u64, int), DecodeError>(e),
        }),
    decreases data@.len() - pos,
{
    if pos >= data.len() {
        return Err(DecodeError::Truncated);
    }
    let b = data[pos];
    if b < 128 {
        Ok((b as u64, pos + 1))
    } else {
        match varint(data, pos + 1) {
            Err(e) => Err(e),
            Ok((rest, np)) => if rest < VARINT_REST_MAX {
                Ok(((b - 128) as u64 + 128 * rest, np))
            } else {
                Err(DecodeError::Malformed)
            },
        }
    }
}

fn zigzag(v: u64) -> (r: i64)
    ensures
        r as int == sp_zigzag(v),
{
    if v % 2 == 0 {
        (v / 2) as i64
    } else {
        -((v / 2) as i64) - 1
    }
}

#[verifier::loop_isolation(false)]
fn str_bytes(data: &Vec<u8>, pos: usize) -> (r: Result<(Vec<u8>, usize), DecodeError>)
    requires
        pos <= data@.len(),
    ensures
        (match r {
            Ok(t) => sp_str(data@, pos as int) == Ok::<(Seq<u8>, int), DecodeError>(
                (t.0@, t.1 as int),
            ) && pos < t.1 <= data@.len(),
            Err(e) => sp_str(data@, pos as int) == Err::<(Seq<u8>, int), DecodeError>(e),
        }),
{
    let (len, j) = match varint(data, pos) {
        Ok(t) => t,
        Err(e) => {
            return Err(e);
        },
    };
    if len > MAX_STR_LEN {
        return Err(DecodeError::Malformed);
    }
    if len > (data.len() - j) as u64 {
        return Err(DecodeError::Truncated);
    }
    let len_us = len as usize;
    let mut out: Vec<u8> = Vec::new();
    proof {
        assert(out@ =~= data@.subrange(j as int, j as int));
    }
    let mut k: usize = 0;
    while k < len_us
        invariant
            k <= len_us,
            j + len_us <= data@.len(),
            out@ == data@.subrange(j as int, j + k),
            forall|k2: int| j <= k2 < j + k ==> data@[k2] < 128,
        decreases len_us - k,
    {
        let b = data[j + k];
        if b >= 128 {
            proof {
                assert(data@[(j + k) as int] >= 128);
            }
            return Err(DecodeError::Malformed);
        }
        out.push(b);
        proof {
            assert(out@ =~= data@.subrange(j as int, j + k + 1));
        }
        k = k + 1;
    }
    Ok((out, j + len_us))
}

fn dict(data: &Vec<u8>, pos: usize, count: u64, acc: Vec<Vec<u8>>) -> (r: Result<
    (Vec<Vec<u8>>, usize),
    DecodeError,
>)
    requires
        pos <= data@.len(),
    ensures
        (match r {
            Ok(t) => sp_dict(data@, pos as int, count as nat, byte_views(acc@)) == Ok::<
                (Seq<Seq<u8>>, int),
                DecodeError,
            >((byte_views(t.0@), t.1 as int)) && t.1 <= data@.len(),
            Err(e) => sp_dict(data@, pos as int, count as nat, byte_views(acc@)) == Err::<
                (Seq<Seq<u8>>, int),
                DecodeError,
            >(e),
        }),
    decreases count,
{
    if count == 0 {
        return Ok((acc, pos));
    }
    match str_bytes(data, pos) {
        Err(e) => Err(e),
        Ok((b, j)) => {
            let ghost bv = b@;
            let mut a = acc;
            a.push(b);
            proof {
                assert(byte_views(a@) =~= byte_views(acc@).push(bv));
            }
            dict(data, j, count - 1, a)
        },
    }
}

fn tags_contain_key(tags: &Vec<Tag>, key: &Vec<u8>) -> (r: bool)
    ensures
        r == tagm_has_key(tag_views(tags@), key@),
{
    let mut i: usize = 0;
    while i < tags.len()
        invariant
            i <= tags@.len(),
            forall|k: int| 0 <= k < i ==> (#[trigger] tag_views(tags@)[k]).key != key@,
        decreases tags@.len() - i,
    {
        if bytes_eq(&tags[i].key, key) {
            proof {
                assert(tag_views(tags@)[i as int].key == key@);
            }
            return true;
        }
        proof {
            assert(tag_views(tags@)[i as int] == tags@[i as int]@);
        }
        i = i + 1;
    }
    false
}

fn tag_pairs(
    data: &Vec<u8>,
    pos: usize,
    count: u64,
    keys: &Vec<Vec<u8>>,
    vals: &Vec<Vec<u8>>,
    acc: Vec<Tag>,
) -> (r: Result<(Vec<Tag>, usize), DecodeError>)
    requires
        pos <= data@.len(),
        tagm_unique(tag_views(acc@)),
    ensures
        (match r {
            Ok(t) => sp_tags(
                data@,
                pos as int,
                count as nat,
                byte_views(keys@),
                byte_views(vals@),
                tag_views(acc@),
            ) == Ok::<(Seq<TagM>, int), DecodeError>((tag_views(t.0@), t.1 as int)) && t.1
                <= data@.len() && tagm_unique(tag_views(t.0@)),
            Err(e) => sp_tags(
                data@,
                pos as int,
                count as nat,
                byte_views(keys@),
                byte_views(vals@),
                tag_views(acc@),
            ) == Err::<(Seq<TagM>, int), DecodeError>(e),
        }),
    decreases count,
{
    if count == 0 {
        return Ok((acc, pos));
    }
    let (ki, j1) = match varint(data, pos) {
        Ok(t) => t,
        Err(e) => {
            return Err(e);
        },
    };
    let (vi, j2) = match varint(data, j1) {
        Ok(t) => t,
        Err(e) => {
            return Err(e);
        },
    };
    if ki >= keys.len() as u64 || vi >= vals.len() as u64 {
        return Err(DecodeError::InvalidTagIndex);
    }
    let ki_us = ki as usize;
    let vi_us = vi as usize;
    proof {
        assert(byte_views(keys@)[ki as int] == keys@[ki as int]@);
        assert(byte_views(vals@)[vi as int] == vals@[vi as int]@);
    }
    if tags_contain_key(&acc, &keys[ki_us]) {
        tag_pairs(data, j2, count - 1, keys, vals, acc)
    } else {
        let t = Tag { key: copy_bytes(&keys[ki_us]), value: copy_bytes(&vals[vi_us]) };
        let ghost tv = t@;
        let ghost av = tag_views(acc@);
        let mut a = acc;
        a.push(t);
        proof {
            assert(tag_views(a@) =~= av.push(tv));
            assert forall|x: int, y: int|
                0 <= x < y < tag_views(a@).len() implies (#[trigger] tag_views(a@)[x]).key != (
            #[trigger] tag_views(a@)[y]).key by {
                if y == av.len() {
                    assert(!tagm_has_key(av, tv.key));
                    assert(tag_views(a@)[x] == av[x]);
                }
            }
        }
        tag_pairs(data, j2, count - 1, keys, vals, a)
    }
}

fn deltas(data: &Vec<u8>, pos: usize, run: u64, cx: i32, cy: i32, acc: Vec<Point>) -> (r: Result<
    (Vec<Point>, i32, i32, usize),
    DecodeError,
>)
    requires
        pos <= data@.len(),
        -COORD_LIMIT <= cx <= COORD_LIMIT,
        -COORD_LIMIT <= cy <= COORD_LIMIT,
        points_bounded(point_views(acc@)),
    ensures
        (match r {
            Ok(t) => sp_deltas(data@, pos as int, run as nat, cx as int, cy as int, point_views(acc@))
                == Ok::<(Seq<(int, int)>, int, int, int), DecodeError>(
                (point_views(t.0@), t.1 as int, t.2 as int, t.3 as int),
            ) && t.3 <= data@.len() && -COORD_LIMIT <= t.1 <= COORD_LIMIT && -COORD_LIMIT <= t.2
                <= COORD_LIMIT && points_bounded(point_views(t.0@)),
            Err(e) => sp_deltas(
                data@,
                pos as int,
                run as nat,
                cx as int,
                cy as int,
                point_views(acc@),
            ) == Err::<(Seq<(int, int)>, int, int, int), DecodeError>(e),
        }),
    decreases run,
{
    if run == 0 {
        return Ok((acc, cx, cy, pos));
    }
    let (v1, j1) = match varint(data, pos) {
        Ok(t) => t,
        Err(e) => {
            return Err(e);
        },
    };
    let (v2, j2) = match varint(data, j1) {
        Ok(t) => t,
        Err(e) => {
            return Err(e);
        },
    };
    let dx = zigzag(v1);
    let dy = zigzag(v2);
    if dx > 0x2000_0000_0000i64 || dx < -0x2000_0000_0000i64 || dy > 0x2000_0000_0000i64 || dy
        < -0x2000_0000_0000i64 {
        return Err(DecodeError::Malformed);
    }
    let nx = cx as i64 + dx;
    let ny = cy as i64 + dy;
    if nx < -COORD_LIMIT as i64 || nx > COORD_LIMIT as i64 || ny < -COORD_LIMIT as i64 || ny
        > COORD_LIMIT as i64 {
        return Err(DecodeError::Malformed);
    }
    let p = Point { x: nx as i32, y: ny as i32 };
    let ghost av = point_views(acc@);
    let mut a = acc;
    a.push(p);
    proof {
        assert(point_views(a@) =~= av.push((nx as int, ny as int)));
    }
    deltas(data, j2, run - 1, nx as i32, ny as i32, a)
}

fn cmds(
    data: &Vec<u8>,
    pos: usize,
    cmd_count: u64,
    first: bool,
    cx: i32,
    cy: i32,
    acc: Vec<Point>,
) -> (r: Result<(Vec<Point>, usize), DecodeError>)
    requires
        pos <= data@.len(),
        -COORD_LIMIT <= cx <= COORD_LIMIT,
        -COORD_LIMIT <= cy <= COORD_LIMIT,
        points_bounded(point_views(acc@)),
    ensures
        (match r {
            Ok(t) => sp_cmds(
                data@,
                pos as int,
                cmd_count as nat,
                first,
                cx as int,
                cy as int,
                point_views(acc@),
            ) == Ok::<(Seq<(int, int)>, int), DecodeError>((point_views(t.0@), t.1 as int)) && t.1
                <= data@.len() && points_bounded(point_views(t.0@)),
            Err(e) => sp_cmds(
                data@,
                pos as int,
                cmd_count as nat,
                first,
                cx as int,
                cy as int,
                point_views(acc@),
            ) == Err::<(Seq<(int, int)>, int), DecodeError>(e),
        }),
    decreases cmd_count,
{
    if cmd_count == 0 {
        if acc.len() == 0 {
            return Err(DecodeError::Malformed);
        }
        return Ok((acc, pos));
    }
    let (word, j) = match varint(data, pos) {
        Ok(t) => t,
        Err(e) => {
            return Err(e);
        },
    };
    let op = word % 8;
    let run = word / 8;
    if !(op == 1 || op == 2) {
        return Err(DecodeError::Malformed);
    }
    if first && op != 1 {
        return Err(DecodeError::Malformed);
    }
    match deltas(data, j, run, cx, cy, acc) {
        Err(e) => Err(e),
        Ok((acc2, cx2, cy2, j2)) => cmds(data, j2, cmd_count - 1, false, cx2, cy2, acc2),
    }
}

fn feature(
    data: &Vec<u8>,
    pos: usize,
    keys: &Vec<Vec<u8>>,
    vals: &Vec<Vec<u8>>,
    style: &Stylesheet,
    zoom: u8,
) -> (r: Result<(Object, usize), DecodeError>)
    requires
        pos <= data@.len(),
    ensures
        (match r {
            Ok(t) => sp_feature(
                data@,
                pos as int,
                byte_views(keys@),
                byte_views(vals@),
                style.rules@,
                zoom,
            ) == Ok::<(ObjectM, int), DecodeError>((t.0@, t.1 as int)) && t.1 <= data@.len()
                && t.0@.wf(),
            Err(e) => sp_feature(
                data@,
                pos as int,
                byte_views(keys@),
                byte_views(vals@),
                style.rules@,
                zoom,
            ) == Err::<(ObjectM, int), DecodeError>(e),
        }),
{
    let (g, j0) = match varint(data, pos) {
        Ok(t) => t,
        Err(e) => {
            return Err(e);
        },
    };
    if !(g == 1 || g == 2 || g == 3) {
        return Err(DecodeError::Malformed);
    }
    let object_type = if g == 1 {
        ObjectType::Point
    } else if g == 2 {
        ObjectType::Line
    } else {
        ObjectType::Polygon
    };
    let (tag_count, j1) = match varint(data, j0) {
        Ok(t) => t,
        Err(e) => {
            return Err(e);
        },
    };
    let empty_tags: Vec<Tag> = Vec::new();
    proof {
        assert(tag_views(empty_tags@) =~= Seq::<TagM>::empty());
    }
    let (tags, j2) = match tag_pairs(data, j1, tag_count, keys, vals, empty_tags) {
        Ok(t) => t,
        Err(e) => {
            return Err(e);
        },
    };
    let (cmd_count, j3) = match varint(data, j2) {
        Ok(t) => t,
        Err(e) => {
            return Err(e);
        },
    };
    let empty_points: Vec<Point> = Vec::new();
    proof {
        assert(point_views(empty_points@) =~= Seq::<(int, int)>::empty());
    }
    let (points, j4) = match cmds(data, j3, cmd_count, true, 0, 0, empty_points) {
        Ok(t) => t,
        Err(e) => {
            return Err(e);
        },
    };
    let selector = style.resolve(&tags, zoom);
    let o = Object { selector, points, tags, object_type };
    Ok((o, j4))
}

fn features(
    data: &Vec<u8>,
    pos: usize,
    count: u64,
    keys: &Vec<Vec<u8>>,
    vals: &Vec<Vec<u8>>,
    style: &Stylesheet,
    zoom: u8,
    acc: Vec<Object>,
) -> (r: Result<(Vec<Object>, usize), DecodeError>)
    requires
        pos <= data@.len(),
        objects_wf(acc@),
    ensures
        (match r {
            Ok(t) => sp_features(
                data@,
                pos as int,
                count as nat,
                byte_views(keys@),
                byte_views(vals@),
                style.rules@,
                zoom,
                object_views(acc@),
            ) == Ok::<(Seq<ObjectM>, int), DecodeError>((object_views(t.0@), t.1 as int)) && t.1
                <= data@.len() && objects_wf(t.0@),
            Err(e) => sp_features(
                data@,
                pos as int,
                count as nat,
                byte_views(keys@),
                byte_views(vals@),
                style.rules@,
                zoom,
                object_views(acc@),
            ) == Err::<(Seq<ObjectM>, int), DecodeError>(e),
        }),
    decreases count,
{
    if count == 0 {
        return Ok((acc, pos));
    }
    match feature(data, pos, keys, vals, style, zoom) {
        Err(e) => Err(e),
        Ok((o, j)) => {
            let ghost ov = o@;
            let mut a = acc;
            a.push(o);
            proof {
                assert(object_views(a@) =~= object_views(acc@).push(ov));
            }
            features(data, j, count - 1, keys, vals, style, zoom, a)
        },
    }
}

fn layer(
    data: &Vec<u8>,
    pos: usize,
    style: &Stylesheet,
    zoom: u8,
    ext: Option<u32>,
    acc: Vec<Object>,
) -> (r: Result<(Vec<Object>, Option<u32>, usize), DecodeError>)
    requires
        pos <= data@.len(),
        objects_wf(acc@),
        ext is Some ==> 1 <= ext->0 <= MAX_EXTENT,
    ensures
        (match r {
            Ok(t) => sp_layer(data@, pos as int, style.rules@, zoom, ext_view(ext), object_views(acc@))
                == Ok::<(Seq<ObjectM>, Option<int>, int), DecodeError>(
                (object_views(t.0@), ext_view(t.1), t.2 as int),
            ) && t.2 <= data@.len() && objects_wf(t.0@) && (t.1 is Some ==> 1 <= t.1->0
                <= MAX_EXTENT),
            Err(e) => sp_layer(
                data@,
                pos as int,
                style.rules@,
                zoom,
                ext_view(ext),
                object_views(acc@),
            ) == Err::<(Seq<ObjectM>, Option<int>, int), DecodeError>(e),
        }),
{
    let (_name, j0) = match str_bytes(data, pos) {
        Ok(t) => t,
        Err(e) => {
            return Err(e);
        },
    };
    let (extent, j1) = match varint(data, j0) {
        Ok(t) => t,
        Err(e) => {
            return Err(e);
        },
    };
    if extent < 1 || extent > MAX_EXTENT {
        return Err(DecodeError::Malformed);
    }
    if let Some(e) = ext {
        if extent != e as u64 {
            return Err(DecodeError::Malformed);
        }
    }
    let (key_count, j2) = match varint(data, j1) {
        Ok(t) => t,
        Err(e) => {
            return Err(e);
        },
    };
    let empty_keys: Vec<Vec<u8>> = Vec::new();
    proof {
        assert(byte_views(empty_keys@) =~= Seq::<Seq<u8>>::empty());
    }
    let (keys, j3) = match dict(data, j2, key_count, empty_keys) {
        Ok(t) => t,
        Err(e) => {
            return Err(e);
        },
    };
    let (val_count, j4) = match varint(data, j3) {
        Ok(t) => t,
        Err(e) => {
            return Err(e);
        },
    };
    let empty_vals: Vec<Vec<u8>> = Vec::new();
    proof {
        assert(byte_views(empty_vals@) =~= Seq::<Seq<u8>>::empty());
    }
    let (vals, j5) = match dict(data, j4, val_count, empty_vals) {
        Ok(t) => t,
        Err(e) => {
            return Err(e);
        },
    };
    let (feature_count, j6) = match varint(data, j5) {
        Ok(t) => t,
        Err(e) => {
            return Err(e);
        },
    };
    match features(data, j6, feature_count, &keys, &vals, style, zoom, acc) {
        Err(e) => Err(e),
        Ok((objs, j7)) => Ok((objs, Some(extent as u32), j7)),
    }
}

fn layers(
    data: &Vec<u8>,
    pos: usize,
    count: u64,
    style: &Stylesheet,
    zoom: u8,
    ext: Option<u32>,
    acc: Vec<Object>,
) -> (r: Result<(Vec<Object>, Option<u32>, usize), DecodeError>)
    requires
        pos <= data@.len(),
        objects_wf(acc@),
        ext is Some ==> 1 <= ext->0 <= MAX_EXTENT,
    ensures
        (match r {
            Ok(t) => sp_layers(
                data@,
                pos as int,
                count as nat,
                style.rules@,
                zoom,
                ext_view(ext),
                object_views(acc@),
            ) == Ok::<(Seq<ObjectM>, Option<int>, int), DecodeError>(
                (object_views(t.0@), ext_view(t.1), t.2 as int),
            ) && t.2 <= data@.len() && objects_wf(t.0@) && (t.1 is Some ==> 1 <= t.1->0
                <= MAX_EXTENT),
            Err(e) => sp_layers(
                data@,
                pos as int,
                count as nat,
                style.rules@,
                zoom,
                ext_view(ext),
                object_views(acc@),
            ) == Err::<(Seq<ObjectM>, Option<int>, int), DecodeError>(e),
        }),
    decreases count,
{
    if count == 0 {
        return Ok((acc, ext, pos));
    }
    match layer(data, pos, style, zoom, ext, acc) {
        Err(e) => Err(e),
        Ok((objs, ext2, j)) => layers(data, j, count - 1, style, zoom, ext2, objs),
    }
}

/// Decode a whole tile payload against a stylesheet at a zoom level.
/// On success, the objects of every layer in order (each with its
/// resolved selector) and the tile's extent; on any violation of the
/// grammar, the error, and nothing is produced.
pub fn decode_tile(data: &Vec<u8>, style: &Stylesheet, zoom: u8) -> (r: Result<
    (Vec<Object>, u32),
    DecodeError,
>)
    ensures
        (match r {
            Ok(t) => sp_tile(data@, style.rules@, zoom) == Ok::<(Seq<ObjectM>, int), DecodeError>(
                (object_views(t.0@), t.1 as int),
            ) && objects_wf(t.0@) && 1 <= t.1 <= MAX_EXTENT,
            Err(e) => sp_tile(data@, style.rules@, zoom) == Err::<(Seq<ObjectM>, int), DecodeError>(
                e,
            ),
        }),
{
    let (layer_count, j) = match varint(data, 0) {
        Ok(t) => t,
        Err(e) => {
            return Err(e);
        },
    };
    let empty_objs: Vec<Object> = Vec::new();
    proof {
        assert(object_views(empty_objs@) =~= Seq::<ObjectM>::empty());
    }
    let (objs, ext, j2) = match layers(data, j, layer_count, style, zoom, None, empty_objs) {
        Ok(t) => t,
        Err(e) => {
            return Err(e);
        },
    };
    if j2 != data.len() {
        return Err(DecodeError::Malformed);
    }
    let extent = match ext {
        Some(e) => e,
        None => DEFAULT_EXTENT,
    };
    Ok((objs, extent))
}

/// Decoding is a pure function of the payload, the rules and the zoom:
/// the same bytes always yield structurally identical object sequences
/// and the same extent.
pub proof fn lemma_decode_idempotent(
    s: Seq<u8>,
    rules: Seq<Rule>,
    zoom: u8,
    o1: Seq<ObjectM>,
    e1: int,
    o2: Seq<ObjectM>,
    e2: int,
)
    requires
        sp_tile(s, rules, zoom) == Ok::<(Seq<ObjectM>, int), DecodeError>((o1, e1)),
        sp_tile(s, rules, zoom) == Ok::<(Seq<ObjectM>, int), DecodeError>((o2, e2)),
    ensures
        o1 == o2,
        e1 == e2,
{
}

} // verus!
