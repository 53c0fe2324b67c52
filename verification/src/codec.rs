//! The sidecar codec: a byte-exact encoding of the whole aggregate —
//! root name, root path, hidden-file policy, ignore list, tree — and its
//! decoder.  Numbers are little endian, eight bytes; a string is its
//! byte length, then its UTF-8 bytes; a list is its count, then its
//! items; an option and a node carry a one-byte tag.  Decoding a
//! truncated or ill-formed payload fails; decoding what was encoded
//! gives back the encoded value.

use vstd::prelude::*;
use vstd::bytes::{
    spec_u64_from_le_bytes, spec_u64_to_le_bytes, lemma_auto_spec_u64_to_from_le_bytes,
    u64_from_le_bytes, u64_to_le_bytes,
};
use vstd::slice::slice_subrange;
use vstd::string::StrSliceExecFns;
use vstd::utf8::{decode_utf8, encode_utf8, valid_utf8};
use crate::fs_node::{
    dir_view, fields_view, file_view, node_view, nodes_view, DirInfo, DirInfoView, Fields,
    FieldsView, FileInfo, FileInfoView, FsNode, FsNodeView,
};
use crate::text::bytes_to_string;
use crate::walk::names_view;
use crate::watcher::{Watcher, WatcherError, WatcherView};

verus! {

pub open spec fn enc_u64(x: u64) -> Seq<u8> {
    spec_u64_to_le_bytes(x)
}

pub open spec fn enc_bool(b: bool) -> Seq<u8> {
    seq![
        if b {
            1u8
        } else {
            0u8
        },
    ]
}

pub open spec fn enc_opt_time(t: Option<u64>) -> Seq<u8> {
    match t {
        None => seq![0u8],
        Some(x) => seq![1u8] + enc_u64(x),
    }
}

pub open spec fn enc_str(s: Seq<char>) -> Seq<u8> {
    enc_u64(encode_utf8(s).len() as u64) + encode_utf8(s)
}

pub open spec fn enc_pairs(m: Seq<(Seq<char>, Seq<char>)>) -> Seq<u8>
    decreases m.len(),
{
    if m.len() == 0 {
        seq![]
    } else {
        enc_str(m[0].0) + enc_str(m[0].1) + enc_pairs(m.drop_first())
    }
}

pub open spec fn enc_fields(f: FieldsView) -> Seq<u8> {
    match f {
        None => seq![0u8],
        Some(m) => seq![1u8] + enc_u64(m.len() as u64) + enc_pairs(m),
    }
}

pub open spec fn enc_names(l: Seq<Seq<char>>) -> Seq<u8>
    decreases l.len(),
{
    if l.len() == 0 {
        seq![]
    } else {
        enc_str(l[0]) + enc_names(l.drop_first())
    }
}

pub open spec fn enc_file(f: FileInfoView) -> Seq<u8> {
    enc_str(f.name) + enc_str(f.path) + enc_opt_time(f.last_modified) + enc_fields(f.fields)
}

pub open spec fn enc_dir(d: DirInfoView) -> Seq<u8>
    decreases d,
{
    enc_str(d.name) + enc_str(d.path) + enc_opt_time(d.last_modified) + enc_bool(d.expanded)
        + enc_fields(d.fields) + enc_u64(d.content.len() as u64) + enc_nodes(d.content)
}

pub open spec fn enc_nodes(s: Seq<FsNodeView>) -> Seq<u8>
    decreases s,
{
    if s.len() == 0 {
        seq![]
    } else {
        enc_node(s[0]) + enc_nodes(s.drop_first())
    }
}

pub open spec fn enc_node(n: FsNodeView) -> Seq<u8>
    decreases n,
{
    match n {
        FsNodeView::Directory(d) => seq![0u8] + enc_dir(d),
        FsNodeView::File(f) => seq![1u8] + enc_file(f),
    }
}

/// The sidecar bytes of the whole aggregate.
pub open spec fn enc_watcher(w: WatcherView) -> Seq<u8> {
    enc_str(w.dir_name) + enc_str(w.path) + enc_bool(w.ignore_hidden) + enc_u64(
        w.ignore_list.len() as u64,
    ) + enc_names(w.ignore_list) + enc_dir(w.dir_info)
}

/// The machine bound every encoded length must meet.
pub open spec fn len_bound() -> int {
    0x1_0000_0000_0000_0000
}

pub open spec fn fits_str(s: Seq<char>) -> bool {
    encode_utf8(s).len() < len_bound()
}

pub open spec fn fits_pairs(m: Seq<(Seq<char>, Seq<char>)>) -> bool
    decreases m.len(),
{
    if m.len() == 0 {
        true
    } else {
        fits_str(m[0].0) && fits_str(m[0].1) && fits_pairs(m.drop_first())
    }
}

pub open spec fn fits_fields(f: FieldsView) -> bool {
    match f {
        None => true,
        Some(m) => m.len() < len_bound() && fits_pairs(m),
    }
}

pub open spec fn fits_names(l: Seq<Seq<char>>) -> bool
    decreases l.len(),
{
    if l.len() == 0 {
        true
    } else {
        fits_str(l[0]) && fits_names(l.drop_first())
    }
}

pub open spec fn fits_file(f: FileInfoView) -> bool {
    fits_str(f.name) && fits_str(f.path) && fits_fields(f.fields)
}

pub open spec fn fits_dir(d: DirInfoView) -> bool
    decreases d,
{
    fits_str(d.name) && fits_str(d.path) && fits_fields(d.fields) && d.content.len() < len_bound()
        && fits_nodes(d.content)
}

pub open spec fn fits_nodes(s: Seq<FsNodeView>) -> bool
    decreases s,
{
    if s.len() == 0 {
        true
    } else {
        fits_node(s[0]) && fits_nodes(s.drop_first())
    }
}

pub open spec fn fits_node(n: FsNodeView) -> bool
    decreases n,
{
    match n {
        FsNodeView::Directory(d) => fits_dir(d),
        FsNodeView::File(f) => fits_file(f),
    }
}

/// Whether the machine bounds hold of every piece of the aggregate; true
/// of every aggregate a program can hold in memory.
pub open spec fn fits_watcher(w: WatcherView) -> bool {
    fits_str(w.dir_name) && fits_str(w.path) && w.ignore_list.len() < len_bound() && fits_names(
        w.ignore_list,
    ) && fits_dir(w.dir_info)
}

pub open spec fn dec_u64(b: Seq<u8>, pos: int) -> Option<(u64, int)> {
    if 0 <= pos && pos + 8 <= b.len() {
        Some((spec_u64_from_le_bytes(b.subrange(pos, pos + 8)), pos + 8))
    } else {
        None
    }
}

pub open spec fn dec_bool(b: Seq<u8>, pos: int) -> Option<(bool, int)> {
    if 0 <= pos && pos + 1 <= b.len() {
        if b[pos] == 0 {
            Some((false, pos + 1))
        } else if b[pos] == 1 {
            Some((true, pos + 1))
        } else {
            None
        }
    } else {
        None
    }
}

pub open spec fn dec_opt_time(b: Seq<u8>, pos: int) -> Option<(Option<u64>, int)> {
    if 0 <= pos && pos + 1 <= b.len() {
        if b[pos] == 0 {
            Some((None, pos + 1))
        } else if b[pos] == 1 {
            match dec_u64(b, pos + 1) {
                None => None,
                Some((x, p)) => Some((Some(x), p)),
            }
        } else {
            None
        }
    } else {
        None
    }
}

pub open spec fn dec_str(b: Seq<u8>, pos: int) -> Option<(Seq<char>, int)> {
    match dec_u64(b, pos) {
        None => None,
        Some((n, p)) => {
            if p + n <= b.len() {
                let bytes = b.subrange(p, p + n);
                if valid_utf8(bytes) {
                    Some((decode_utf8(bytes), p + n))
                } else {
                    None
                }
            } else {
                None
            }
        },
    }
}

pub open spec fn dec_pairs(b: Seq<u8>, pos: int, count: int) -> Option<
    (Seq<(Seq<char>, Seq<char>)>, int),
>
    decreases count,
{
    if count <= 0 {
        Some((seq![], pos))
    } else {
        match dec_str(b, pos) {
            None => None,
            Some((k, p1)) => match dec_str(b, p1) {
                None => None,
                Some((v, p2)) => match dec_pairs(b, p2, count - 1) {
                    None => None,
                    Some((rest, p3)) => Some((seq![(k, v)] + rest, p3)),
                },
            },
        }
    }
}

pub open spec fn dec_fields(b: Seq<u8>, pos: int) -> Option<(FieldsView, int)> {
    if 0 <= pos && pos + 1 <= b.len() {
        if b[pos] == 0 {
            Some((None, pos + 1))
        } else if b[pos] == 1 {
            match dec_u64(b, pos + 1) {
                None => None,
                Some((n, p)) => match dec_pairs(b, p, n as int) {
                    None => None,
                    Some((m, p2)) => Some((Some(m), p2)),
                },
            }
        } else {
            None
        }
    } else {
        None
    }
}

pub open spec fn dec_names(b: Seq<u8>, pos: int, count: int) -> Option<(Seq<Seq<char>>, int)>
    decreases count,
{
    if count <= 0 {
        Some((seq![], pos))
    } else {
        match dec_str(b, pos) {
            None => None,
            Some((s, p1)) => match dec_names(b, p1, count - 1) {
                None => None,
                Some((rest, p2)) => Some((seq![s] + rest, p2)),
            },
        }
    }
}

pub open spec fn dec_file(b: Seq<u8>, pos: int) -> Option<(FileInfoView, int)> {
    match dec_str(b, pos) {
        None => None,
        Some((name, p1)) => match dec_str(b, p1) {
            None => None,
            Some((path, p2)) => match dec_opt_time(b, p2) {
                None => None,
                Some((lm, p3)) => match dec_fields(b, p3) {
                    None => None,
                    Some((fl, p4)) => Some(
                        ((FileInfoView { name, path, last_modified: lm, fields: fl }), p4),
                    ),
                },
            },
        },
    }
}

pub open spec fn dec_node(b: Seq<u8>, pos: int) -> Option<(FsNodeView, int)>
    decreases b.len() - pos, 0int, 0int,
{
    if 0 <= pos && pos + 1 <= b.len() {
        if b[pos] == 0 {
            match dec_dir(b, pos + 1) {
                None => None,
                Some((d, p)) => Some((FsNodeView::Directory(d), p)),
            }
        } else if b[pos] == 1 {
            match dec_file(b, pos + 1) {
                None => None,
                Some((f, p)) => Some((FsNodeView::File(f), p)),
            }
        } else {
            None
        }
    } else {
        None
    }
}

pub open spec fn dec_dir(b: Seq<u8>, pos: int) -> Option<(DirInfoView, int)>
    decreases b.len() - pos, 1int, 0int,
{
    match dec_str(b, pos) {
        None => None,
        Some((name, p1)) => match dec_str(b, p1) {
            None => None,
            Some((path, p2)) => match dec_opt_time(b, p2) {
                None => None,
                Some((lm, p3)) => match dec_bool(b, p3) {
                    None => None,
                    Some((expanded, p4)) => match dec_fields(b, p4) {
                        None => None,
                        Some((fl, p5)) => match dec_u64(b, p5) {
                            None => None,
                            Some((cnt, p6)) => {
                                if pos < p6 <= b.len() {
                                    match dec_nodes(b, p6, cnt as int) {
                                        None => None,
                                        Some((cs, p7)) => Some(
                                            (
                                                (DirInfoView {
                                                    name,
                                                    path,
                                                    last_modified: lm,
                                                    expanded,
                                                    content: cs,
                                                    fields: fl,
                                                }),
                                                p7,
                                            ),
                                        ),
                                    }
                                } else {
                                    None
                                }
                            },
                        },
                    },
                },
            },
        },
    }
}

pub open spec fn dec_nodes(b: Seq<u8>, pos: int, count: int) -> Option<(Seq<FsNodeView>, int)>
    decreases b.len() - pos, 2int, count,
{
    if count <= 0 {
        Some((seq![], pos))
    } else if !(0 <= pos <= b.len()) {
        None
    } else {
        match dec_node(b, pos) {
            None => None,
            Some((n, p1)) => {
                if pos < p1 <= b.len() {
                    match dec_nodes(b, p1, count - 1) {
                        None => None,
                        Some((rest, p2)) => Some((seq![n] + rest, p2)),
                    }
                } else {
                    None
                }
            },
        }
    }
}

proof fn lemma_frame_split(b: Seq<u8>, pos: int, x: Seq<u8>, y: Seq<u8>)
    requires
        0 <= pos,
        pos + x.len() + y.len() <= b.len(),
        b.subrange(pos, pos + x.len() + y.len()) == x + y,
    ensures
        b.subrange(pos, pos + x.len()) == x,
        b.subrange(pos + x.len(), pos + x.len() + y.len()) == y,
{
    let whole = b.subrange(pos, pos + x.len() + y.len());
    assert forall|j: int| 0 <= j < x.len() implies b.subrange(pos, pos + x.len())[j] == x[j] by {
        assert(whole[j] == (x + y)[j]);
    }
    assert(b.subrange(pos, pos + x.len()) =~= x);
    assert forall|j: int| 0 <= j < y.len() implies b.subrange(
        pos + x.len(),
        pos + x.len() + y.len(),
    )[j] == y[j] by {
        assert(whole[x.len() + j] == (x + y)[x.len() + j]);
    }
    assert(b.subrange(pos + x.len(), pos + x.len() + y.len()) =~= y);
}

proof fn lemma_dec_enc_u64(b: Seq<u8>, pos: int, x: u64)
    requires
        0 <= pos,
        pos + 8 <= b.len(),
        b.subrange(pos, pos + 8) == enc_u64(x),
    ensures
        dec_u64(b, pos) == Some((x, pos + 8)),
{
    lemma_auto_spec_u64_to_from_le_bytes();
}

proof fn lemma_dec_enc_bool(b: Seq<u8>, pos: int, v: bool)
    requires
        0 <= pos,
        pos + 1 <= b.len(),
        b.subrange(pos, pos + 1) == enc_bool(v),
    ensures
        dec_bool(b, pos) == Some((v, pos + 1)),
{
    assert(b[pos] == enc_bool(v)[0]);
}

proof fn lemma_dec_enc_opt_time(b: Seq<u8>, pos: int, t: Option<u64>)
    requires
        0 <= pos,
        pos + enc_opt_time(t).len() <= b.len(),
        b.subrange(pos, pos + enc_opt_time(t).len()) == enc_opt_time(t),
    ensures
        dec_opt_time(b, pos) == Some((t, pos + enc_opt_time(t).len())),
{
    lemma_auto_spec_u64_to_from_le_bytes();
    match t {
        None => {
            assert(b.subrange(pos, pos + 1)[0] == enc_opt_time(t)[0]);
        },
        Some(x) => {
            lemma_frame_split(b, pos, seq![1u8], enc_u64(x));
            assert(b.subrange(pos, pos + 1)[0] == 1u8);
            assert(b[pos] == 1u8);
            lemma_dec_enc_u64(b, pos + 1, x);
        },
    }
}

proof fn lemma_dec_enc_str(b: Seq<u8>, pos: int, s: Seq<char>)
    requires
        fits_str(s),
        0 <= pos,
        pos + enc_str(s).len() <= b.len(),
        b.subrange(pos, pos + enc_str(s).len()) == enc_str(s),
    ensures
        dec_str(b, pos) == Some((s, pos + enc_str(s).len())),
        enc_str(s).len() >= 8,
{
    lemma_auto_spec_u64_to_from_le_bytes();
    let eb = encode_utf8(s);
    let m = eb.len() as u64;
    lemma_frame_split(b, pos, enc_u64(m), eb);
    lemma_dec_enc_u64(b, pos, m);
    vstd::utf8::encode_utf8_valid_utf8(s);
    vstd::utf8::encode_utf8_decode_utf8(s);
    assert(b.subrange(pos + 8, pos + 8 + m as int) == eb);
}

proof fn lemma_dec_enc_pairs(b: Seq<u8>, pos: int, m: Seq<(Seq<char>, Seq<char>)>)
    requires
        fits_pairs(m),
        0 <= pos,
        pos + enc_pairs(m).len() <= b.len(),
        b.subrange(pos, pos + enc_pairs(m).len()) == enc_pairs(m),
    ensures
        dec_pairs(b, pos, m.len() as int) == Some((m, pos + enc_pairs(m).len())),
    decreases m.len(),
{
    if m.len() == 0 {
        assert(m =~= Seq::<(Seq<char>, Seq<char>)>::empty());
    } else {
        let a = enc_str(m[0].0);
        let c = enc_str(m[0].1);
        let rest = enc_pairs(m.drop_first());
        lemma_frame_split(b, pos, a + c, rest);
        lemma_frame_split(b, pos, a, c);
        lemma_dec_enc_str(b, pos, m[0].0);
        lemma_dec_enc_str(b, pos + a.len(), m[0].1);
        lemma_dec_enc_pairs(b, pos + a.len() + c.len(), m.drop_first());
        assert(seq![(m[0].0, m[0].1)] + m.drop_first() =~= m);
    }
}

proof fn lemma_dec_enc_names(b: Seq<u8>, pos: int, l: Seq<Seq<char>>)
    requires
        fits_names(l),
        0 <= pos,
        pos + enc_names(l).len() <= b.len(),
        b.subrange(pos, pos + enc_names(l).len()) == enc_names(l),
    ensures
        dec_names(b, pos, l.len() as int) == Some((l, pos + enc_names(l).len())),
    decreases l.len(),
{
    if l.len() == 0 {
        assert(l =~= Seq::<Seq<char>>::empty());
    } else {
        let a = enc_str(l[0]);
        let rest = enc_names(l.drop_first());
        lemma_frame_split(b, pos, a, rest);
        lemma_dec_enc_str(b, pos, l[0]);
        lemma_dec_enc_names(b, pos + a.len(), l.drop_first());
        assert(seq![l[0]] + l.drop_first() =~= l);
    }
}

proof fn lemma_dec_enc_fields(b: Seq<u8>, pos: int, f: FieldsView)
    requires
        fits_fields(f),
        0 <= pos,
        pos + enc_fields(f).len() <= b.len(),
        b.subrange(pos, pos + enc_fields(f).len()) == enc_fields(f),
    ensures
        dec_fields(b, pos) == Some((f, pos + enc_fields(f).len())),
        enc_fields(f).len() >= 1,
{
    lemma_auto_spec_u64_to_from_le_bytes();
    match f {
        None => {
            assert(b.subrange(pos, pos + 1)[0] == enc_fields(f)[0]);
        },
        Some(m) => {
            let cnt = m.len() as u64;
            lemma_frame_split(b, pos, seq![1u8] + enc_u64(cnt), enc_pairs(m));
            lemma_frame_split(b, pos, seq![1u8], enc_u64(cnt));
            assert(b.subrange(pos, pos + 1)[0] == 1u8);
            assert(b[pos] == 1u8);
            lemma_dec_enc_u64(b, pos + 1, cnt);
            lemma_dec_enc_pairs(b, pos + 9, m);
        },
    }
}

proof fn lemma_dec_enc_file(b: Seq<u8>, pos: int, f: FileInfoView)
    requires
        fits_file(f),
        0 <= pos,
        pos + enc_file(f).len() <= b.len(),
        b.subrange(pos, pos + enc_file(f).len()) == enc_file(f),
    ensures
        dec_file(b, pos) == Some((f, pos + enc_file(f).len())),
{
    let a = enc_str(f.name);
    let c = enc_str(f.path);
    let d = enc_opt_time(f.last_modified);
    let e = enc_fields(f.fields);
    lemma_frame_split(b, pos, (a + c) + d, e);
    lemma_frame_split(b, pos, a + c, d);
    lemma_frame_split(b, pos, a, c);
    lemma_dec_enc_str(b, pos, f.name);
    lemma_dec_enc_str(b, pos + a.len(), f.path);
    lemma_dec_enc_opt_time(b, pos + a.len() + c.len(), f.last_modified);
    lemma_dec_enc_fields(b, pos + a.len() + c.len() + d.len(), f.fields);
}

proof fn lemma_dec_enc_node(b: Seq<u8>, pos: int, n: FsNodeView)
    requires
        fits_node(n),
        0 <= pos,
        pos + enc_node(n).len() <= b.len(),
        b.subrange(pos, pos + enc_node(n).len()) == enc_node(n),
    ensures
        dec_node(b, pos) == Some((n, pos + enc_node(n).len())),
        enc_node(n).len() >= 1,
    decreases n, 2int,
{
    match n {
        FsNodeView::Directory(d) => {
            lemma_frame_split(b, pos, seq![0u8], enc_dir(d));
            assert(b.subrange(pos, pos + 1)[0] == 0u8);
            assert(b[pos] == 0u8);
            lemma_dec_enc_dir(b, pos + 1, d);
        },
        FsNodeView::File(f) => {
            lemma_frame_split(b, pos, seq![1u8], enc_file(f));
            assert(b.subrange(pos, pos + 1)[0] == 1u8);
            assert(b[pos] == 1u8);
            lemma_dec_enc_file(b, pos + 1, f);
        },
    }
}

proof fn lemma_dec_enc_dir(b: Seq<u8>, pos: int, d: DirInfoView)
    requires
        fits_dir(d),
        0 <= pos,
        pos + enc_dir(d).len() <= b.len(),
        b.subrange(pos, pos + enc_dir(d).len()) == enc_dir(d),
    ensures
        dec_dir(b, pos) == Some((d, pos + enc_dir(d).len())),
    decreases d, 1int,
{
    lemma_auto_spec_u64_to_from_le_bytes();
    let s1 = enc_str(d.name);
    let s2 = enc_str(d.path);
    let s3 = enc_opt_time(d.last_modified);
    let s4 = enc_bool(d.expanded);
    let s5 = enc_fields(d.fields);
    let cnt = d.content.len() as u64;
    let s6 = enc_u64(cnt);
    let s7 = enc_nodes(d.content);
    lemma_frame_split(b, pos, ((((s1 + s2) + s3) + s4) + s5) + s6, s7);
    lemma_frame_split(b, pos, (((s1 + s2) + s3) + s4) + s5, s6);
    lemma_frame_split(b, pos, ((s1 + s2) + s3) + s4, s5);
    lemma_frame_split(b, pos, (s1 + s2) + s3, s4);
    lemma_frame_split(b, pos, s1 + s2, s3);
    lemma_frame_split(b, pos, s1, s2);
    lemma_dec_enc_str(b, pos, d.name);
    lemma_dec_enc_str(b, pos + s1.len(), d.path);
    lemma_dec_enc_opt_time(b, pos + s1.len() + s2.len(), d.last_modified);
    lemma_dec_enc_bool(b, pos + s1.len() + s2.len() + s3.len(), d.expanded);
    lemma_dec_enc_fields(b, pos + s1.len() + s2.len() + s3.len() + s4.len(), d.fields);
    let p5 = pos + s1.len() + s2.len() + s3.len() + s4.len() + s5.len();
    lemma_dec_enc_u64(b, p5, cnt);
    lemma_dec_enc_nodes(b, p5 + 8, d.content);
}

proof fn lemma_dec_enc_nodes(b: Seq<u8>, pos: int, s: Seq<FsNodeView>)
    requires
        fits_nodes(s),
        0 <= pos,
        pos + enc_nodes(s).len() <= b.len(),
        b.subrange(pos, pos + enc_nodes(s).len()) == enc_nodes(s),
    ensures
        dec_nodes(b, pos, s.len() as int) == Some((s, pos + enc_nodes(s).len())),
    decreases s, 0int,
{
    if s.len() == 0 {
        assert(s =~= Seq::<FsNodeView>::empty());
    } else {
        let a = enc_node(s[0]);
        let rest = enc_nodes(s.drop_first());
        lemma_frame_split(b, pos, a, rest);
        lemma_dec_enc_node(b, pos, s[0]);
        lemma_dec_enc_nodes(b, pos + a.len(), s.drop_first());
        assert(seq![s[0]] + s.drop_first() =~= s);
    }
}

/// Encoding an aggregate and decoding the bytes gives the aggregate
/// back, field for field: the sidecar round trip loses nothing.  The
/// bound asks only that every piece fit the encoding's length fields,
/// which holds of every aggregate a program can hold in memory.
pub proof fn lemma_sidecar_round_trip(w: WatcherView)
    requires
        fits_watcher(w),
    ensures
        dec_watcher(enc_watcher(w)) == Some(w),
{
    lemma_auto_spec_u64_to_from_le_bytes();
    let b = enc_watcher(w);
    let s1 = enc_str(w.dir_name);
    let s2 = enc_str(w.path);
    let s3 = enc_bool(w.ignore_hidden);
    let cnt = w.ignore_list.len() as u64;
    let s4 = enc_u64(cnt);
    let s5 = enc_names(w.ignore_list);
    let s6 = enc_dir(w.dir_info);
    assert(b.subrange(0, b.len() as int) =~= b);
    lemma_frame_split(b, 0, (((s1 + s2) + s3) + s4) + s5, s6);
    lemma_frame_split(b, 0, ((s1 + s2) + s3) + s4, s5);
    lemma_frame_split(b, 0, (s1 + s2) + s3, s4);
    lemma_frame_split(b, 0, s1 + s2, s3);
    lemma_frame_split(b, 0, s1, s2);
    lemma_dec_enc_str(b, 0, w.dir_name);
    lemma_dec_enc_str(b, s1.len() as int, w.path);
    lemma_dec_enc_bool(b, (s1.len() + s2.len()) as int, w.ignore_hidden);
    lemma_dec_enc_u64(b, (s1.len() + s2.len() + 1) as int, cnt);
    lemma_dec_enc_names(b, (s1.len() + s2.len() + 9) as int, w.ignore_list);
    lemma_dec_enc_dir(b, (s1.len() + s2.len() + 9 + s5.len()) as int, w.dir_info);
}

/// The images of a list of attribute pairs.
pub open spec fn pairs_view(v: Seq<(String, String)>) -> Seq<(Seq<char>, Seq<char>)> {
    v.map_values(|p: (String, String)| (p.0@, p.1@))
}

pub proof fn lemma_fields_view_is_pairs(v: Vec<(String, String)>)
    ensures
        fields_view(Some(v)) == Some(pairs_view(v@)),
{
    assert(fields_view(Some(v))->0 =~= pairs_view(v@));
}

fn write_u64(out: &mut Vec<u8>, x: u64)
    ensures
        final(out)@ == old(out)@ + enc_u64(x),
{
    let mut bs = u64_to_le_bytes(x);
    out.append(&mut bs);
}

fn write_bool(out: &mut Vec<u8>, b: bool)
    ensures
        final(out)@ == old(out)@ + enc_bool(b),
{
    if b {
        out.push(1u8);
    } else {
        out.push(0u8);
    }
    proof {
        assert(out@ =~= old(out)@ + enc_bool(b));
    }
}

fn write_opt_time(out: &mut Vec<u8>, t: Option<u64>)
    ensures
        final(out)@ == old(out)@ + enc_opt_time(t),
{
    match t {
        None => {
            out.push(0u8);
            proof {
                assert(out@ =~= old(out)@ + enc_opt_time(t));
            }
        },
        Some(x) => {
            out.push(1u8);
            write_u64(out, x);
            proof {
                assert(out@ =~= old(out)@ + enc_opt_time(t));
            }
        },
    }
}

fn write_str(out: &mut Vec<u8>, s: &str)
    ensures
        final(out)@ == old(out)@ + enc_str(s@),
        fits_str(s@),
{
    let bv = s.as_bytes_vec();
    let n = bv.len();
    write_u64(out, n as u64);
    let mut rest = bv;
    out.append(&mut rest);
    proof {
        assert(out@ =~= old(out)@ + enc_str(s@));
    }
}

fn write_pairs_from(out: &mut Vec<u8>, v: &Vec<(String, String)>, i: usize)
    requires
        i <= v@.len(),
    ensures
        final(out)@ == old(out)@ + enc_pairs(pairs_view(v@).subrange(i as int, v@.len() as int)),
        fits_pairs(pairs_view(v@).subrange(i as int, v@.len() as int)),
    decreases v@.len() - i,
{
    let ghost pv = pairs_view(v@);
    if i == v.len() {
        proof {
            assert(pv.subrange(i as int, v@.len() as int) =~= Seq::<(Seq<char>, Seq<char>)>::empty());
            assert(out@ =~= out@ + enc_pairs(pv.subrange(i as int, v@.len() as int)));
        }
    } else {
        let ghost sfx = pv.subrange(i as int, v@.len() as int);
        write_str(out, v[i].0.as_str());
        write_str(out, v[i].1.as_str());
        write_pairs_from(out, v, i + 1);
        proof {
            assert(sfx[0] == (v@[i as int].0@, v@[i as int].1@));
            assert(sfx.drop_first() =~= pv.subrange((i + 1) as int, v@.len() as int));
            assert(out@ =~= old(out)@ + enc_pairs(sfx));
        }
    }
}

fn write_fields(out: &mut Vec<u8>, f: &Fields)
    ensures
        final(out)@ == old(out)@ + enc_fields(fields_view(*f)),
        fits_fields(fields_view(*f)),
{
    match f {
        None => {
            out.push(0u8);
            proof {
                assert(out@ =~= old(out)@ + enc_fields(fields_view(*f)));
            }
        },
        Some(v) => {
            out.push(1u8);
            write_u64(out, v.len() as u64);
            write_pairs_from(out, v, 0);
            proof {
                let m = fields_view(*f)->0;
                assert(m =~= pairs_view(v@));
                assert(pairs_view(v@).subrange(0, v@.len() as int) =~= pairs_view(v@));
                assert(out@ =~= old(out)@ + enc_fields(fields_view(*f)));
            }
        },
    }
}

fn write_names_from(out: &mut Vec<u8>, v: &Vec<String>, i: usize)
    requires
        i <= v@.len(),
    ensures
        final(out)@ == old(out)@ + enc_names(names_view(v@).subrange(i as int, v@.len() as int)),
        fits_names(names_view(v@).subrange(i as int, v@.len() as int)),
    decreases v@.len() - i,
{
    let ghost nv = names_view(v@);
    if i == v.len() {
        proof {
            assert(nv.subrange(i as int, v@.len() as int) =~= Seq::<Seq<char>>::empty());
            assert(out@ =~= out@ + enc_names(nv.subrange(i as int, v@.len() as int)));
        }
    } else {
        let ghost sfx = nv.subrange(i as int, v@.len() as int);
        write_str(out, v[i].as_str());
        write_names_from(out, v, i + 1);
        proof {
            assert(sfx[0] == v@[i as int]@);
            assert(sfx.drop_first() =~= nv.subrange((i + 1) as int, v@.len() as int));
            assert(out@ =~= old(out)@ + enc_names(sfx));
        }
    }
}

fn write_file(out: &mut Vec<u8>, f: &FileInfo)
    ensures
        final(out)@ == old(out)@ + enc_file(file_view(*f)),
        fits_file(file_view(*f)),
{
    write_str(out, f.name.as_str());
    write_str(out, f.path.as_str());
    write_opt_time(out, f.last_modified);
    write_fields(out, &f.fields);
    proof {
        assert(out@ =~= old(out)@ + enc_file(file_view(*f)));
    }
}

fn write_node(out: &mut Vec<u8>, n: &FsNode)
    ensures
        final(out)@ == old(out)@ + enc_node(node_view(*n)),
        fits_node(node_view(*n)),
    decreases *n, 2int,
{
    match n {
        FsNode::Directory(d) => {
            out.push(0u8);
            write_dir(out, d);
            proof {
                assert(out@ =~= old(out)@ + enc_node(node_view(*n)));
            }
        },
        FsNode::File(f) => {
            out.push(1u8);
            write_file(out, f);
            proof {
                assert(out@ =~= old(out)@ + enc_node(node_view(*n)));
            }
        },
    }
}

fn write_dir(out: &mut Vec<u8>, d: &DirInfo)
    ensures
        final(out)@ == old(out)@ + enc_dir(dir_view(*d)),
        fits_dir(dir_view(*d)),
    decreases *d, 1int,
{
    proof {
        crate::fs_node::lemma_nodes_view_len(d.content@);
    }
    write_str(out, d.name.as_str());
    write_str(out, d.path.as_str());
    write_opt_time(out, d.last_modified);
    write_bool(out, d.expanded);
    write_fields(out, &d.fields);
    write_u64(out, d.content.len() as u64);
    proof {
        assert(d.content@.subrange(0, d.content@.len() as int) =~= d.content@);
    }
    write_nodes_from(out, &d.content, 0);
    proof {
        assert(nodes_view(d.content@).subrange(0, nodes_view(d.content@).len() as int)
            =~= nodes_view(d.content@));
        assert(out@ =~= old(out)@ + enc_dir(dir_view(*d)));
    }
}

fn write_nodes_from(out: &mut Vec<u8>, v: &Vec<FsNode>, i: usize)
    requires
        i <= v@.len(),
    ensures
        final(out)@ == old(out)@ + enc_nodes(nodes_view(v@).subrange(i as int, v@.len() as int)),
        fits_nodes(nodes_view(v@).subrange(i as int, v@.len() as int)),
    decreases v@.subrange(i as int, v@.len() as int), 0int,
{
    let ghost cv = nodes_view(v@);
    proof {
        crate::fs_node::lemma_nodes_view_len(v@);
    }
    if i == v.len() {
        proof {
            assert(cv.subrange(i as int, v@.len() as int) =~= Seq::<FsNodeView>::empty());
            assert(out@ =~= out@ + enc_nodes(cv.subrange(i as int, v@.len() as int)));
        }
    } else {
        let ghost sfx = cv.subrange(i as int, v@.len() as int);
        proof {
            crate::fs_node::lemma_nodes_view_index(v@, i as int);
            assert(v@.subrange(i as int, v@.len() as int)[0] == v@[i as int]);
        }
        write_node(out, &v[i]);
        proof {
            assert(v@.subrange((i + 1) as int, v@.len() as int) =~= v@.subrange(
                i as int,
                v@.len() as int,
            ).subrange(1, (v@.len() - i) as int));
        }
        write_nodes_from(out, v, i + 1);
        proof {
            assert(sfx[0] == node_view(v@[i as int]));
            assert(sfx.drop_first() =~= cv.subrange((i + 1) as int, v@.len() as int));
            assert(out@ =~= old(out)@ + enc_nodes(sfx));
        }
    }
}

/// Copies `buf[from..to]`.
fn copy_range(buf: &Vec<u8>, from: usize, to: usize) -> (r: Vec<u8>)
    requires
        from <= to <= buf@.len(),
    ensures
        r@ == buf@.subrange(from as int, to as int),
{
    let mut out: Vec<u8> = Vec::new();
    let mut i: usize = from;
    while i < to
        invariant
            from <= i <= to <= buf@.len(),
            out@ =~= buf@.subrange(from as int, i as int),
        decreases to - i,
    {
        out.push(buf[i]);
        proof {
            assert(out@ =~= buf@.subrange(from as int, (i + 1) as int));
        }
        i = i + 1;
    }
    proof {
        assert(out@ =~= buf@.subrange(from as int, to as int));
    }
    out
}

fn read_u64(buf: &Vec<u8>, pos: usize) -> (r: Option<(u64, usize)>)
    ensures
        r matches Some((x, p)) ==> dec_u64(buf@, pos as int) == Some((x, p as int)) && pos < p
            <= buf@.len(),
        r is None ==> dec_u64(buf@, pos as int) is None,
{
    if buf.len() >= 8 && pos <= buf.len() - 8 {
        let x = u64_from_le_bytes(slice_subrange(buf.as_slice(), pos, pos + 8));
        Some((x, pos + 8))
    } else {
        None
    }
}

fn read_bool(buf: &Vec<u8>, pos: usize) -> (r: Option<(bool, usize)>)
    ensures
        r matches Some((x, p)) ==> dec_bool(buf@, pos as int) == Some((x, p as int)) && pos < p
            <= buf@.len(),
        r is None ==> dec_bool(buf@, pos as int) is None,
{
    if pos < buf.len() {
        let tag = buf[pos];
        if tag == 0 {
            Some((false, pos + 1))
        } else if tag == 1 {
            Some((true, pos + 1))
        } else {
            None
        }
    } else {
        None
    }
}

fn read_opt_time(buf: &Vec<u8>, pos: usize) -> (r: Option<(Option<u64>, usize)>)
    ensures
        r matches Some((x, p)) ==> dec_opt_time(buf@, pos as int) == Some((x, p as int)) && pos < p
            <= buf@.len(),
        r is None ==> dec_opt_time(buf@, pos as int) is None,
{
    if pos < buf.len() {
        let tag = buf[pos];
        if tag == 0 {
            Some((None, pos + 1))
        } else if tag == 1 {
            match read_u64(buf, pos + 1) {
                None => None,
                Some((x, p)) => Some((Some(x), p)),
            }
        } else {
            None
        }
    } else {
        None
    }
}

fn read_str(buf: &Vec<u8>, pos: usize) -> (r: Option<(String, usize)>)
    ensures
        r matches Some((s, p)) ==> dec_str(buf@, pos as int) == Some((s@, p as int)) && pos < p
            <= buf@.len(),
        r is None ==> dec_str(buf@, pos as int) is None,
{
    match read_u64(buf, pos) {
        None => None,
        Some((n, p)) => {
            if n <= (buf.len() - p) as u64 {
                let nu = n as usize;
                let bytes = copy_range(buf, p, p + nu);
                match bytes_to_string(bytes) {
                    None => None,
                    Some(s) => Some((s, p + nu)),
                }
            } else {
                None
            }
        },
    }
}

fn read_pairs(buf: &Vec<u8>, pos: usize, count: u64) -> (r: Option<(Vec<(String, String)>, usize)>)
    requires
        pos <= buf@.len(),
    ensures
        r matches Some((v, p)) ==> dec_pairs(buf@, pos as int, count as int) == Some(
            (pairs_view(v@), p as int),
        ) && pos <= p <= buf@.len(),
        r is None ==> dec_pairs(buf@, pos as int, count as int) is None,
    decreases count,
{
    if count == 0 {
        let v: Vec<(String, String)> = Vec::new();
        proof {
            assert(pairs_view(v@) =~= Seq::<(Seq<char>, Seq<char>)>::empty());
        }
        Some((v, pos))
    } else {
        match read_str(buf, pos) {
            None => None,
            Some((k, p1)) => match read_str(buf, p1) {
                None => None,
                Some((w, p2)) => match read_pairs(buf, p2, count - 1) {
                    None => None,
                    Some((rest, p3)) => {
                        let mut v: Vec<(String, String)> = Vec::new();
                        v.push((k, w));
                        let mut rest_mut = rest;
                        v.append(&mut rest_mut);
                        proof {
                            assert(pairs_view(v@) =~= seq![(v@[0].0@, v@[0].1@)] + pairs_view(
                                v@.subrange(1, v@.len() as int),
                            ));
                            assert(v@.subrange(1, v@.len() as int) =~= rest@);
                        }
                        Some((v, p3))
                    },
                },
            },
        }
    }
}

fn read_names(buf: &Vec<u8>, pos: usize, count: u64) -> (r: Option<(Vec<String>, usize)>)
    requires
        pos <= buf@.len(),
    ensures
        r matches Some((v, p)) ==> dec_names(buf@, pos as int, count as int) == Some(
            (names_view(v@), p as int),
        ) && pos <= p <= buf@.len(),
        r is None ==> dec_names(buf@, pos as int, count as int) is None,
    decreases count,
{
    if count == 0 {
        let v: Vec<String> = Vec::new();
        proof {
            assert(names_view(v@) =~= Seq::<Seq<char>>::empty());
        }
        Some((v, pos))
    } else {
        match read_str(buf, pos) {
            None => None,
            Some((s, p1)) => match read_names(buf, p1, count - 1) {
                None => None,
                Some((rest, p2)) => {
                    let mut v: Vec<String> = Vec::new();
                    v.push(s);
                    let mut rest_mut = rest;
                    v.append(&mut rest_mut);
                    proof {
                        assert(names_view(v@) =~= seq![v@[0]@] + names_view(
                            v@.subrange(1, v@.len() as int),
                        ));
                        assert(v@.subrange(1, v@.len() as int) =~= rest@);
                    }
                    Some((v, p2))
                },
            },
        }
    }
}

fn read_fields(buf: &Vec<u8>, pos: usize) -> (r: Option<(Fields, usize)>)
    ensures
        r matches Some((f, p)) ==> dec_fields(buf@, pos as int) == Some(
            (fields_view(f), p as int),
        ) && pos < p <= buf@.len(),
        r is None ==> dec_fields(buf@, pos as int) is None,
{
    if pos < buf.len() {
        let tag = buf[pos];
        if tag == 0 {
            Some((None, pos + 1))
        } else if tag == 1 {
            match read_u64(buf, pos + 1) {
                None => None,
                Some((n, p)) => match read_pairs(buf, p, n) {
                    None => None,
                    Some((m, p2)) => {
                        proof {
                            lemma_fields_view_is_pairs(m);
                        }
                        Some((Some(m), p2))
                    },
                },
            }
        } else {
            None
        }
    } else {
        None
    }
}

fn read_file(buf: &Vec<u8>, pos: usize) -> (r: Option<(FileInfo, usize)>)
    ensures
        r matches Some((f, p)) ==> dec_file(buf@, pos as int) == Some((file_view(f), p as int))
            && pos < p <= buf@.len(),
        r is None ==> dec_file(buf@, pos as int) is None,
{
    match read_str(buf, pos) {
        None => None,
        Some((name, p1)) => match read_str(buf, p1) {
            None => None,
            Some((path, p2)) => match read_opt_time(buf, p2) {
                None => None,
                Some((lm, p3)) => match read_fields(buf, p3) {
                    None => None,
                    Some((fl, p4)) => Some(
                        (FileInfo { name, path, last_modified: lm, fields: fl }, p4),
                    ),
                },
            },
        },
    }
}

fn read_node(buf: &Vec<u8>, pos: usize) -> (r: Option<(FsNode, usize)>)
    ensures
        r matches Some((n, p)) ==> dec_node(buf@, pos as int) == Some((node_view(n), p as int))
            && pos < p <= buf@.len(),
        r is None ==> dec_node(buf@, pos as int) is None,
    decreases buf@.len() - pos, 0int, 0int,
{
    if pos < buf.len() {
        let tag = buf[pos];
        if tag == 0 {
            match read_dir(buf, pos + 1) {
                None => None,
                Some((d, p)) => Some((FsNode::Directory(d), p)),
            }
        } else if tag == 1 {
            match read_file(buf, pos + 1) {
                None => None,
                Some((f, p)) => Some((FsNode::File(f), p)),
            }
        } else {
            None
        }
    } else {
        None
    }
}

fn read_dir(buf: &Vec<u8>, pos: usize) -> (r: Option<(DirInfo, usize)>)
    ensures
        r matches Some((d, p)) ==> dec_dir(buf@, pos as int) == Some((dir_view(d), p as int))
            && pos < p <= buf@.len(),
        r is None ==> dec_dir(buf@, pos as int) is None,
    decreases buf@.len() - pos, 1int, 0int,
{
    match read_str(buf, pos) {
        None => None,
        Some((name, p1)) => match read_str(buf, p1) {
            None => None,
            Some((path, p2)) => match read_opt_time(buf, p2) {
                None => None,
                Some((lm, p3)) => match read_bool(buf, p3) {
                    None => None,
                    Some((expanded, p4)) => match read_fields(buf, p4) {
                        None => None,
                        Some((fl, p5)) => match read_u64(buf, p5) {
                            None => None,
                            Some((cnt, p6)) => match read_nodes(buf, p6, cnt) {
                                None => None,
                                Some((cs, p7)) => Some(
                                    (
                                        DirInfo {
                                            name,
                                            path,
                                            last_modified: lm,
                                            expanded,
                                            content: cs,
                                            fields: fl,
                                        },
                                        p7,
                                    ),
                                ),
                            },
                        },
                    },
                },
            },
        },
    }
}

fn read_nodes(buf: &Vec<u8>, pos: usize, count: u64) -> (r: Option<(Vec<FsNode>, usize)>)
    requires
        pos <= buf@.len(),
    ensures
        r matches Some((v, p)) ==> dec_nodes(buf@, pos as int, count as int) == Some(
            (nodes_view(v@), p as int),
        ) && pos <= p <= buf@.len(),
        r is None ==> dec_nodes(buf@, pos as int, count as int) is None,
    decreases buf@.len() - pos, 2int, count,
{
    if count == 0 {
        let v: Vec<FsNode> = Vec::new();
        proof {
            assert(nodes_view(v@) =~= Seq::<FsNodeView>::empty());
        }
        Some((v, pos))
    } else {
        match read_node(buf, pos) {
            None => None,
            Some((n, p1)) => match read_nodes(buf, p1, count - 1) {
                None => None,
                Some((rest, p2)) => {
                    let mut v: Vec<FsNode> = Vec::new();
                    proof {
                        crate::fs_node::lemma_nodes_view_push(v@, n);
                    }
                    v.push(n);
                    let mut rest_mut = rest;
                    v.append(&mut rest_mut);
                    proof {
                        crate::fs_node::lemma_nodes_view_len(v@);
                        crate::fs_node::lemma_nodes_view_len(rest_mut@);
                        assert(nodes_view(v@) =~= seq![node_view(v@[0])] + nodes_view(
                            v@.subrange(1, v@.len() as int),
                        )) by {
                            lemma_nodes_view_decompose(v@);
                        }
                        assert(v@.subrange(1, v@.len() as int) =~= rest@);
                    }
                    Some((v, p2))
                },
            },
        }
    }
}

proof fn lemma_nodes_view_decompose(s: Seq<FsNode>)
    requires
        s.len() > 0,
    ensures
        nodes_view(s) == seq![node_view(s[0])] + nodes_view(s.subrange(1, s.len() as int)),
    decreases s,
{
    crate::fs_node::lemma_nodes_view_len(s);
    crate::fs_node::lemma_nodes_view_len(s.subrange(1, s.len() as int));
    if s.len() == 1 {
        assert(s.subrange(1, s.len() as int) =~= Seq::<FsNode>::empty());
        assert(s.drop_last() =~= Seq::<FsNode>::empty());
        assert(nodes_view(s) =~= seq![node_view(s[0])] + nodes_view(s.subrange(1, s.len() as int)));
    } else {
        lemma_nodes_view_decompose(s.drop_last());
        assert(s.drop_last()[0] == s[0]);
        assert(s.drop_last().subrange(1, s.drop_last().len() as int) =~= s.subrange(
            1,
            s.len() as int,
        ).drop_last());
        assert(nodes_view(s) =~= seq![node_view(s[0])] + nodes_view(s.subrange(1, s.len() as int)));
    }
}

impl Watcher {
    /// The sidecar bytes of this aggregate, exactly as `enc_watcher`
    /// describes them.
    pub fn encode(&self) -> (r: Vec<u8>)
        ensures
            r@ == enc_watcher(self@),
            fits_watcher(self@),
    {
        let mut out: Vec<u8> = Vec::new();
        write_str(&mut out, self.dir_name.as_str());
        write_str(&mut out, self.path.as_str());
        write_bool(&mut out, self.ignore_hidden);
        write_u64(&mut out, self.ignore_list.len() as u64);
        write_names_from(&mut out, &self.ignore_list, 0);
        write_dir(&mut out, &self.dir_info);
        proof {
            assert(names_view(self.ignore_list@).subrange(0, self.ignore_list@.len() as int)
                =~= names_view(self.ignore_list@));
            assert(out@ =~= enc_watcher(self@));
        }
        out
    }

    /// Restores an aggregate from sidecar bytes.  It succeeds exactly
    /// when the payload decodes in full; a missing piece, an ill-formed
    /// piece or trailing bytes give `DecodeError`.
    pub fn decode(bytes: &Vec<u8>) -> (r: Result<Watcher, WatcherError>)
        ensures
            r matches Ok(w) ==> dec_watcher(bytes@) == Some(w@),
            r is Err <==> dec_watcher(bytes@) is None,
            r is Err ==> r == Err::<Watcher, WatcherError>(WatcherError::DecodeError),
    {
        match read_str(bytes, 0) {
            None => Err(WatcherError::DecodeError),
            Some((dir_name, p1)) => match read_str(bytes, p1) {
                None => Err(WatcherError::DecodeError),
                Some((path, p2)) => match read_bool(bytes, p2) {
                    None => Err(WatcherError::DecodeError),
                    Some((ih, p3)) => match read_u64(bytes, p3) {
                        None => Err(WatcherError::DecodeError),
                        Some((cnt, p4)) => match read_names(bytes, p4, cnt) {
                            None => Err(WatcherError::DecodeError),
                            Some((il, p5)) => match read_dir(bytes, p5) {
                                None => Err(WatcherError::DecodeError),
                                Some((di, p6)) => {
                                    if p6 == bytes.len() {
                                        Ok(
                                            Watcher {
                                                dir_name,
                                                path,
                                                ignore_hidden: ih,
                                                ignore_list: il,
                                                dir_info: di,
                                            },
                                        )
                                    } else {
                                        Err(WatcherError::DecodeError)
                                    }
                                },
                            },
                        },
                    },
                },
            },
        }
    }
}

/// What a whole sidecar payload holds: the aggregate, when every piece
/// decodes and the payload ends exactly there; else nothing.
pub open spec fn dec_watcher(b: Seq<u8>) -> Option<WatcherView> {
    match dec_str(b, 0) {
        None => None,
        Some((dir_name, p1)) => match dec_str(b, p1) {
            None => None,
            Some((path, p2)) => match dec_bool(b, p2) {
                None => None,
                Some((ih, p3)) => match dec_u64(b, p3) {
                    None => None,
                    Some((cnt, p4)) => match dec_names(b, p4, cnt as int) {
                        None => None,
                        Some((il, p5)) => match dec_dir(b, p5) {
                            None => None,
                            Some((di, p6)) => {
                                if p6 == b.len() {
                                    Some(
                                        WatcherView {
                                            dir_name,
                                            path,
                                            ignore_hidden: ih,
                                            ignore_list: il,
                                            dir_info: di,
                                        },
                                    )
                                } else {
                                    None
                                }
                            },
                        },
                    },
                },
            },
        },
    }
}

} // verus!
