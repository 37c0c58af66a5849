use vstd::prelude::*;
use vstd::string::StringExecFns;
use vstd::utf8::{decode_utf8, valid_utf8};
use crate::read;
use crate::read::{le_value, lemma_le_value_bound, pow256};

verus! {

/// The size of a save's Lua state once decompressed.
pub trait UncompressedSize {
    fn uncompressed_size() -> (r: i32);
}

/// A version 16 save file: its header fields, the Lua keys, the map names
/// and the compressed Lua state.
pub struct HadesSaveV16 {
    pub version: u32,
    pub timestamp: u64,
    pub location: String,
    pub runs: u32,
    pub active_meta_points: u32,
    pub active_shrine_points: u32,
    pub god_mode_enabled: bool,
    pub hell_mode_enabled: bool,
    pub lua_keys: Vec<String>,
    pub current_map_name: String,
    pub start_next_map: String,
    pub lua_state_lz4: Vec<u8>,
}

impl UncompressedSize for HadesSaveV16 {
    fn uncompressed_size() -> (r: i32)
        ensures
            r == 9388032,
    {
        9388032
    }
}

/// The bytes of the signature `SGB1`.
pub open spec fn signature() -> Seq<u8> {
    seq![0x53u8, 0x47u8, 0x42u8, 0x31u8]
}

/// The little-endian `u32` at `p`.
pub open spec fn u32_at(s: Seq<u8>, p: int) -> nat {
    le_value(s.subrange(p, p + 4))
}

/// A length-prefixed byte string at `p`: its bytes and where it ends.
pub open spec fn string_at(s: Seq<u8>, p: int) -> Option<(Seq<u8>, int)> {
    if 0 <= p && p + 4 <= s.len() && p + 4 + u32_at(s, p) <= s.len() {
        Some((s.subrange(p + 4, p + 4 + u32_at(s, p)), p + 4 + u32_at(s, p)))
    } else {
        None
    }
}

/// `count` length-prefixed strings from `p`: their bytes and where they end.
pub open spec fn strings_at(s: Seq<u8>, p: int, count: nat) -> Option<(Seq<Seq<u8>>, int)>
    decreases count,
{
    if count == 0 {
        Some((Seq::empty(), p))
    } else {
        match strings_at(s, p, (count - 1) as nat) {
            None => None,
            Some((ks, q)) => match string_at(s, q) {
                None => None,
                Some((b, q2)) => Some((ks.push(b), q2)),
            },
        }
    }
}

/// Where the location string ends, then where the Lua keys start.
pub open spec fn after_location(s: Seq<u8>) -> int {
    string_at(s, 20)->Some_0.1
}

/// The layout of a well-formed save: the location, the Lua keys, the two
/// map names and the Lua state, each text field valid UTF-8.
pub open spec fn save_ok(s: Seq<u8>) -> bool {
    &&& s.len() >= 20
    &&& s.take(4) == signature()
    &&& u32_at(s, 8) == 16
    &&& string_at(s, 20) matches Some((loc, after_loc))
    &&& valid_utf8(loc)
    &&& after_loc + 18 <= s.len()
    &&& strings_at(s, after_loc + 18, u32_at(s, after_loc + 14)) matches Some((ks, after_keys))
    &&& (forall|i: int| 0 <= i < ks.len() ==> #[trigger] valid_utf8(ks[i]))
    &&& string_at(s, after_keys) matches Some((cur, after_cur))
    &&& valid_utf8(cur)
    &&& string_at(s, after_cur) matches Some((next, after_next))
    &&& valid_utf8(next)
    &&& string_at(s, after_next) is Some
}

/// Relies on `String::from_utf8`: `Ok` exactly for valid UTF-8, holding the
/// text it encodes.
#[verifier::external_body]
fn string_from_utf8(b: Vec<u8>) -> (r: Option<String>)
    ensures
        r is Some <==> valid_utf8(b@),
        r matches Some(t) ==> t@ == decode_utf8(b@),
{
    String::from_utf8(b).ok()
}

/// `s` followed by a space and `n`.
fn refine(s: &str, n: &str) -> (r: String)
    ensures
        r@ == s@ + " "@ + n@,
{
    let mut r = s.to_owned();
    r.append(" ");
    r.append(n);
    r
}

/// Copies a slice into a vector.
fn to_vec(b: &[u8]) -> (r: Vec<u8>)
    ensures
        r@ == b@,
{
    let mut v: Vec<u8> = Vec::new();
    let mut i: usize = 0;
    while i < b.len()
        invariant
            i <= b@.len(),
            v@ == b@.take(i as int),
        decreases b@.len() - i,
    {
        v.push(b[i]);
        proof {
            assert(b@.take(i as int + 1) =~= b@.take(i as int).push(b@[i as int]));
        }
        i = i + 1;
    }
    proof {
        assert(b@.take(b@.len() as int) =~= b@);
    }
    v
}

/// Reads a length-prefixed UTF-8 string.
fn string(loadstate: &mut &[u8], err: &str) -> (r: Result<String, String>)
    ensures
        r is Ok <==> (string_at(old(loadstate)@, 0) matches Some((b, q)) && valid_utf8(b)),
        r matches Ok(t) ==> string_at(old(loadstate)@, 0) matches Some((b, q)) && t@ == decode_utf8(b)
            && final(loadstate)@ == old(loadstate)@.skip(q),
{
    let ghost s0 = loadstate@;
    let size = read::u32(loadstate, refine(err, "size"))?;
    proof {
        assert(s0.take(4) =~= s0.subrange(0, 4));
        lemma_le_value_bound(s0.subrange(0, 4));
        reveal_with_fuel(pow256, 5);
        assert(size as nat == u32_at(s0, 0));
    }
    let str_bytes = read::bytes(loadstate, size as usize, refine(err, "bytes"))?;
    proof {
        assert(s0.skip(4).take(size as int) =~= s0.subrange(4, 4 + size as int));
        assert(s0.skip(4).skip(size as int) =~= s0.skip(4 + size as int));
    }
    match string_from_utf8(to_vec(str_bytes)) {
        Some(t) => Ok(t),
        None => Err(refine(err, "utf8")),
    }
}

/// A string read after skipping `p` bytes is the string at `p`.
proof fn lemma_string_at_skip(s: Seq<u8>, p: int)
    requires
        0 <= p <= s.len(),
    ensures
        (string_at(s.skip(p), 0) is Some) == (string_at(s, p) is Some),
        string_at(s, p) matches Some((b, q)) ==> string_at(s.skip(p), 0) == Some((b, q - p)),
{
    let t = s.skip(p);
    if p + 4 <= s.len() {
        assert(t.subrange(0, 4) =~= s.subrange(p, p + 4));
        let n = u32_at(s, p) as int;
        if p + 4 + n <= s.len() {
            assert(t.subrange(4, 4 + n) =~= s.subrange(p + 4, p + 4 + n));
        }
    }
}

/// Reading more strings reads the same first ones.
proof fn lemma_strings_extend(s: Seq<u8>, p: int, k: nat, m: nat)
    requires
        k < m,
        strings_at(s, p, m) is Some,
    ensures
        strings_at(s, p, k + 1) is Some,
        strings_at(s, p, m)->Some_0.0[k as int] == strings_at(s, p, k + 1)->Some_0.0[k as int],
        strings_at(s, p, m)->Some_0.0.len() == m,
    decreases m,
{
    lemma_strings_len(s, p, m);
    if m > k + 1 {
        lemma_strings_extend(s, p, k, (m - 1) as nat);
    }
}

proof fn lemma_strings_len(s: Seq<u8>, p: int, m: nat)
    requires
        strings_at(s, p, m) is Some,
    ensures
        strings_at(s, p, m)->Some_0.0.len() == m,
    decreases m,
{
    if m > 0 {
        lemma_strings_len(s, p, (m - 1) as nat);
    }
}

/// Whether `save` holds what a well-formed `s` states.
pub open spec fn save_holds(save: HadesSaveV16, s: Seq<u8>) -> bool {
    let after_loc = after_location(s);
    let (ks, after_keys) = strings_at(s, after_loc + 18, u32_at(s, after_loc + 14))->Some_0;
    let (cur, after_cur) = string_at(s, after_keys)->Some_0;
    let (next, after_next) = string_at(s, after_cur)->Some_0;
    &&& save.version == 16
    &&& save.timestamp == le_value(s.subrange(12, 20))
    &&& save.location@ == decode_utf8(string_at(s, 20)->Some_0.0)
    &&& save.runs == u32_at(s, after_loc)
    &&& save.active_meta_points == u32_at(s, after_loc + 4)
    &&& save.active_shrine_points == u32_at(s, after_loc + 8)
    &&& save.god_mode_enabled == (s[after_loc + 12] != 0)
    &&& save.hell_mode_enabled == (s[after_loc + 13] != 0)
    &&& save.lua_keys@.len() == ks.len()
    &&& (forall|i: int| 0 <= i < ks.len() ==> #[trigger] save.lua_keys@[i]@ == decode_utf8(ks[i]))
    &&& save.current_map_name@ == decode_utf8(cur)
    &&& save.start_next_map@ == decode_utf8(next)
    &&& save.lua_state_lz4@ == string_at(s, after_next)->Some_0.0
}

/// Where a well-formed save ends.
pub open spec fn save_end(s: Seq<u8>) -> int {
    let after_loc = after_location(s);
    let after_keys = strings_at(s, after_loc + 18, u32_at(s, after_loc + 14))->Some_0.1;
    let after_cur = string_at(s, after_keys)->Some_0.1;
    let after_next = string_at(s, after_cur)->Some_0.1;
    string_at(s, after_next)->Some_0.1
}

/// Reads the `u32` at `pos` of `s0`, `loadstate` standing at `pos`.
fn u32_field(loadstate: &mut &[u8], err: String, Ghost(s0): Ghost<Seq<u8>>, Ghost(pos): Ghost<int>) -> (r: Result<u32, String>)
    requires
        0 <= pos <= s0.len(),
        old(loadstate)@ == s0.skip(pos),
    ensures
        r is Ok <==> pos + 4 <= s0.len(),
        r matches Ok(v) ==> v == u32_at(s0, pos) && final(loadstate)@ == s0.skip(pos + 4),
{
    let r = read::u32(loadstate, err);
    proof {
        if pos + 4 <= s0.len() {
            assert(s0.skip(pos).take(4) =~= s0.subrange(pos, pos + 4));
            assert(s0.skip(pos).skip(4) =~= s0.skip(pos + 4));
            lemma_le_value_bound(s0.subrange(pos, pos + 4));
            reveal_with_fuel(pow256, 5);
        }
    }
    r
}

/// Reads the string at `pos` of `s0`, `loadstate` standing at `pos`.
fn string_field(loadstate: &mut &[u8], err: &str, Ghost(s0): Ghost<Seq<u8>>, Ghost(pos): Ghost<int>) -> (r: Result<String, String>)
    requires
        0 <= pos <= s0.len(),
        old(loadstate)@ == s0.skip(pos),
    ensures
        r is Ok <==> (string_at(s0, pos) matches Some((b, q)) && valid_utf8(b)),
        r matches Ok(t) ==> string_at(s0, pos) matches Some((b, q)) && t@ == decode_utf8(b)
            && final(loadstate)@ == s0.skip(q),
{
    proof {
        lemma_string_at_skip(s0, pos);
    }
    let r = string(loadstate, err);
    proof {
        if let Some((b, q)) = string_at(s0, pos) {
            assert(s0.skip(pos).skip(q - pos) =~= s0.skip(q));
        }
    }
    r
}

/// Reads `size` length-prefixed UTF-8 strings at `p` of `s0`, `loadstate`
/// standing at `p`.
fn read_keys(loadstate: &mut &[u8], size: u32, Ghost(s0): Ghost<Seq<u8>>, Ghost(p): Ghost<int>) -> (r: Result<Vec<String>, String>)
    requires
        0 <= p <= s0.len(),
        old(loadstate)@ == s0.skip(p),
    ensures
        r is Ok <==> (strings_at(s0, p, size as nat) matches Some((ks, q)) && forall|i: int|
            0 <= i < ks.len() ==> #[trigger] valid_utf8(ks[i])),
        r matches Ok(v) ==> (strings_at(s0, p, size as nat) matches Some((ks, q)) && v@.len() == ks.len()
            && (forall|i: int| 0 <= i < ks.len() ==> #[trigger] v@[i]@ == decode_utf8(ks[i])) && final(loadstate)@
            == s0.skip(q)),
{
    let mut lua_keys: Vec<String> = Vec::new();
    let mut k: u32 = 0;
    let ghost mut pos: int = p;
    while k < size
        invariant
            k <= size,
            0 <= p <= pos <= s0.len(),
            loadstate@ == s0.skip(pos),
            strings_at(s0, p, k as nat) == Some((strings_at(s0, p, k as nat)->Some_0.0, pos)),
            strings_at(s0, p, k as nat)->Some_0.0.len() == k,
            lua_keys@.len() == k,
            forall|i: int| 0 <= i < k ==> valid_utf8(#[trigger] strings_at(s0, p, k as nat)->Some_0.0[i]),
            forall|i: int| 0 <= i < k ==> #[trigger] lua_keys@[i]@ == decode_utf8(strings_at(s0, p, k as nat)->Some_0.0[i]),
        decreases size - k,
    {
        let ghost ks = strings_at(s0, p, k as nat)->Some_0.0;
        let key = match string_field(loadstate, "lua_keys", Ghost(s0), Ghost(pos)) {
            Ok(t) => t,
            Err(e) => {
                proof {
                    if strings_at(s0, p, size as nat) is Some {
                        lemma_strings_extend(s0, p, k as nat, size as nat);
                    }
                }
                return Err(e);
            },
        };
        let ghost new_pos = string_at(s0, pos)->Some_0.1;
        proof {
            let b = string_at(s0, pos)->Some_0.0;
            assert(strings_at(s0, p, (k + 1) as nat) == Some((ks.push(b), new_pos)));
        }
        lua_keys.push(key);
        proof {
            pos = new_pos;
            let ks1 = strings_at(s0, p, (k + 1) as nat)->Some_0.0;
            assert forall|i: int| 0 <= i < k + 1 implies #[trigger] lua_keys@[i]@ == decode_utf8(ks1[i]) by {
                if i < k {
                    assert(ks1[i] == ks[i]);
                }
            }
            assert forall|i: int| 0 <= i < k + 1 implies valid_utf8(#[trigger] ks1[i]) by {
                if i < k {
                    assert(ks1[i] == ks[i]);
                }
            }
        }
        k = k + 1;
    }
    Ok(lua_keys)
}

/// Reads a version 16 save: the `SGB1` signature, a checksum, the version,
/// the header fields, the Lua keys, the map names and the compressed Lua
/// state. Refused with `Not a Hades save file` for another signature and
/// with `unknown version` for another version.
#[verifier::rlimit(40)]
pub fn read(loadstate: &mut &[u8], err: String) -> (r: Result<HadesSaveV16, String>)
    ensures
        r is Ok <==> save_ok(old(loadstate)@),
        old(loadstate)@.len() >= 4 && old(loadstate)@.take(4) != signature() ==> (r matches Err(e)
            && e@ == "Not a Hades save file"@),
        old(loadstate)@.len() >= 12 && old(loadstate)@.take(4) == signature() && u32_at(old(loadstate)@, 8)
            != 16 ==> (r matches Err(e) && e@ == "unknown version"@),
        r matches Ok(save) ==> save_holds(save, old(loadstate)@) && final(loadstate)@ == old(loadstate)@.skip(
            save_end(old(loadstate)@),
        ),
{
    let ghost s0 = loadstate@;
    proof {
        assert(s0.skip(0) =~= s0);
    }
    let signature_bytes = read::bytes(loadstate, 4, refine(err.as_str(), "signature"))?;
    if !(signature_bytes[0] == 0x53 && signature_bytes[1] == 0x47 && signature_bytes[2] == 0x42 && signature_bytes[3]
        == 0x31) {
        proof {
            assert(s0.take(4) != signature()) by {
                if s0.take(4) == signature() {
                    assert(s0.take(4)[0] == 0x53 && s0.take(4)[1] == 0x47 && s0.take(4)[2] == 0x42 && s0.take(4)[3] == 0x31);
                }
            }
        }
        return Err("Not a Hades save file".to_owned());
    }
    proof {
        assert(s0.take(4) =~= signature());
    }
    let _checksum = read::bytes(loadstate, 4, refine(err.as_str(), "checksum"))?;
    proof {
        assert(s0.skip(4).skip(4) =~= s0.skip(8));
    }
    let version = u32_field(loadstate, refine(err.as_str(), "version"), Ghost(s0), Ghost(8))?;
    if version != 16 {
        return Err("unknown version".to_owned());
    }
    let timestamp = read::u64(loadstate, refine(err.as_str(), "timestamp"))?;
    proof {
        assert(s0.skip(12).take(8) =~= s0.subrange(12, 20));
        assert(s0.skip(12).skip(8) =~= s0.skip(20));
        lemma_le_value_bound(s0.subrange(12, 20));
        reveal_with_fuel(pow256, 9);
        assert(timestamp == le_value(s0.subrange(12, 20)));
    }
    let location = string_field(loadstate, "location", Ghost(s0), Ghost(20))?;
    let ghost after_loc = string_at(s0, 20)->Some_0.1;
    let runs = u32_field(loadstate, refine(err.as_str(), "runs"), Ghost(s0), Ghost(after_loc))?;
    let active_meta_points = u32_field(loadstate, refine(err.as_str(), "active_meta_points"), Ghost(s0), Ghost(after_loc + 4))?;
    let active_shrine_points = u32_field(loadstate, refine(err.as_str(), "active_shrine_points"), Ghost(s0), Ghost(after_loc + 8))?;
    let god = read::byte(loadstate, refine(err.as_str(), "god_mode_enabled"))?;
    let hell = read::byte(loadstate, refine(err.as_str(), "hell_mode_enabled"))?;
    proof {
        assert(s0.skip(after_loc + 12)[0] == s0[after_loc + 12]);
        assert(s0.skip(after_loc + 12).skip(1) =~= s0.skip(after_loc + 13));
        assert(s0.skip(after_loc + 13).skip(1) =~= s0.skip(after_loc + 14));
    }
    let size = u32_field(loadstate, refine(err.as_str(), "lua_keys size"), Ghost(s0), Ghost(after_loc + 14))?;
    let lua_keys = read_keys(loadstate, size, Ghost(s0), Ghost(after_loc + 18))?;
    let ghost pos = strings_at(s0, after_loc + 18, size as nat)->Some_0.1;
    let ghost after_keys = pos;
    let current_map_name = string_field(loadstate, "current_map_name", Ghost(s0), Ghost(after_keys))?;
    let ghost after_cur = string_at(s0, after_keys)->Some_0.1;
    let start_next_map = string_field(loadstate, "start_next_map", Ghost(s0), Ghost(after_cur))?;
    let ghost after_next = string_at(s0, after_cur)->Some_0.1;
    proof {
        lemma_string_at_skip(s0, after_next);
    }
    let lua_state_size = read::u32(loadstate, refine(err.as_str(), "lua_state size"))?;
    proof {
        assert(s0.skip(after_next).take(4) =~= s0.subrange(after_next, after_next + 4));
        lemma_le_value_bound(s0.subrange(after_next, after_next + 4));
        reveal_with_fuel(pow256, 5);
        assert(s0.skip(after_next).skip(4) =~= s0.skip(after_next + 4));
    }
    let lua_state = read::bytes(loadstate, lua_state_size as usize, refine(err.as_str(), "lua_state bytes"))?;
    proof {
        let n = lua_state_size as int;
        assert(s0.skip(after_next + 4).take(n) =~= s0.subrange(after_next + 4, after_next + 4 + n));
        assert(s0.skip(after_next + 4).skip(n) =~= s0.skip(after_next + 4 + n));
        assert(string_at(s0, after_next)->Some_0.0 == lua_state@);
    }
    Ok(HadesSaveV16 {
        version,
        timestamp,
        location,
        runs,
        active_meta_points,
        active_shrine_points,
        god_mode_enabled: god != 0,
        hell_mode_enabled: hell != 0,
        lua_keys,
        current_map_name,
        start_next_map,
        lua_state_lz4: to_vec(lua_state),
    })
}

} // verus!
