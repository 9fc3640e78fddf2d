//! The IRC client-tag value that names a sticker: `pack/sticker`.
use vstd::prelude::*;
use super::{is_valid_id, PackId, StickerId, StickerRef};

verus! {

/// Name of the IRCv3 client tag that carries a sticker reference.
pub const TAG: &'static str = "+halloy.sticker";

/// The tag value for a pack id and a sticker id.
pub open spec fn wire_text(pack: Seq<char>, sticker: Seq<char>) -> Seq<char> {
    pack + seq!['/'] + sticker
}

/// Whether `v` splits at position `i` (a `/`) into two valid ids.
pub open spec fn splits_at(v: Seq<char>, i: int) -> bool {
    &&& 0 <= i < v.len()
    &&& v[i] == '/'
    &&& is_valid_id(v.take(i))
    &&& is_valid_id(v.skip(i + 1))
}

/// The pack id and sticker id that a tag value names, if it names any:
/// the value must be two valid ids joined by a single `/`.
pub open spec fn wire_decode(v: Seq<char>) -> Option<(Seq<char>, Seq<char>)> {
    if exists|i: int| splits_at(v, i) {
        let i = choose|i: int| splits_at(v, i);
        Some((v.take(i), v.skip(i + 1)))
    } else {
        None
    }
}

/// Renders a sticker reference as a tag value.
pub fn encode(r: &StickerRef) -> (s: String)
    ensures
        s@ == wire_text(r.pack@, r.sticker@),
{
    let mut s = r.pack.as_str().to_owned();
    let slash = "/";
    proof { reveal_strlit("/"); }
    s.append(slash);
    s.append(r.sticker.as_str());
    assert(s@ =~= wire_text(r.pack@, r.sticker@));
    s
}

/// Index of the first `c` in `s`, if any.
pub fn find_char(s: &str, c: char) -> (r: Option<usize>)
    ensures
        match r {
            Some(i) => i < s@.len() && s@[i as int] == c && forall|j: int|
                0 <= j < i ==> s@[j] != c,
            None => forall|j: int| 0 <= j < s@.len() ==> s@[j] != c,
        },
{
    let n = s.unicode_len();
    let mut i: usize = 0;
    while i < n
        invariant
            n == s@.len(),
            i <= n,
            forall|j: int| 0 <= j < i ==> s@[j] != c,
        decreases n - i,
    {
        if s.get_char(i) == c {
            return Some(i);
        }
        i = i + 1;
    }
    None
}

/// Parses a tag value back into a sticker reference.
pub fn decode(value: &str) -> (r: Option<StickerRef>)
    ensures
        match r {
            Some(x) => wire_decode(value@) == Some(x@),
            None => wire_decode(value@) is None,
        },
{
    let n = value.unicode_len();
    let found = find_char(value, '/');
    let i = match found {
        Some(i) => i,
        None => {
            assert(!exists|k: int| splits_at(value@, k));
            return None;
        },
    };
    let pack_text = value.substring_char(0, i);
    let sticker_text = value.substring_char(i + 1, n);
    assert(pack_text@ =~= value@.take(i as int));
    assert(sticker_text@ =~= value@.skip(i + 1));
    // Any other `/` lies after `i`, so the text before it holds the `/` at `i`.
    assert forall|k: int| splits_at(value@, k) implies k == i by {
        if k > i {
            assert(value@.take(k)[i as int] == '/');
        }
    }
    let pack = match PackId::new(pack_text) {
        Some(p) => p,
        None => return None,
    };
    let sticker = match StickerId::new(sticker_text) {
        Some(s) => s,
        None => return None,
    };
    assert(splits_at(value@, i as int));
    Some(StickerRef { pack, sticker })
}

/// A reference survives encoding and decoding unchanged.
pub proof fn lemma_decode_encode(pack: Seq<char>, sticker: Seq<char>)
    requires
        is_valid_id(pack),
        is_valid_id(sticker),
    ensures
        wire_decode(wire_text(pack, sticker)) == Some((pack, sticker)),
{
    let v = wire_text(pack, sticker);
    let n = pack.len() as int;
    assert(v.take(n) =~= pack);
    assert(v.skip(n + 1) =~= sticker);
    assert(splits_at(v, n));
    assert forall|k: int| splits_at(v, k) implies k == n by {
        if k < n {
            assert(v[k] == pack[k]);
        } else if k > n {
            assert(v.take(k)[n] == '/');
        }
    }
}

/// A value that decodes is exactly the encoding of what it decodes to.
pub proof fn lemma_encode_decode(v: Seq<char>, pack: Seq<char>, sticker: Seq<char>)
    requires
        wire_decode(v) == Some((pack, sticker)),
    ensures
        wire_text(pack, sticker) == v,
        is_valid_id(pack),
        is_valid_id(sticker),
{
    let i = choose|i: int| splits_at(v, i);
    assert(wire_text(v.take(i), v.skip(i + 1)) =~= v);
}

} // verus!
