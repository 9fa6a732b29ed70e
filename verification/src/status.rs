//! The status exchange: the packets of the one-shot version/metadata probe
//! and the parser for the server's status document. The socket and the
//! clock belong to the caller; this module builds the outbound packets,
//! checks the inbound ones, and extracts the status record from the JSON
//! text.

use vstd::prelude::*;

use crate::error::Error;
use crate::packet::models_of;
use crate::packet::FieldModel;
use crate::packet::FieldValue;
use crate::packet::Packet;
use crate::packet::HANDSHAKE;
use crate::packet::STATUS_PING;
use crate::packet::STATUS_PONG;
use crate::packet::STATUS_REQUEST;
use crate::packet::STATUS_RESPONSE;
use crate::conn::Conn;
use crate::varint::VarInt;

verus! {

/// The version block of a status document.
#[derive(Debug, Clone, PartialEq, Eq)]
pub struct StatusVersion {
    /// The server's version name.
    pub name: String,
    /// The server's protocol number.
    pub protocol: i32,
}

/// One sampled player entry of a status document.
#[derive(Debug, Clone, PartialEq, Eq)]
pub struct StatusPlayer {
    /// The player's displayed name.
    pub name: String,
    /// The player's identifier string.
    pub id: String,
}

/// The player-count block of a status document.
#[derive(Debug, Clone, PartialEq, Eq)]
pub struct StatusPlayers {
    /// The advertised player capacity.
    pub max: i32,
    /// The count of players online.
    pub online: i32,
    /// An optional sample of online players.
    pub sample: Vec<StatusPlayer>,
}

/// One mod entry of a mod-loader manifest in a status document.
#[derive(Debug, Clone, PartialEq, Eq)]
pub struct ForgeMod {
    /// The mod's identifier.
    pub modid: String,
    /// The mod's version string.
    pub version: String,
}

/// The parsed status document of a server.
#[derive(Debug, Clone, PartialEq, Eq)]
pub struct Status {
    /// The version block.
    pub version: StatusVersion,
    /// The player-count block.
    pub players: StatusPlayers,
    /// The description, kept as its raw document text (rich-text rendering
    /// is a collaborator's concern).
    pub description: String,
    /// The optional favicon data string.
    pub favicon: Option<String>,
    /// The mod list, from either mod-manifest extension; empty when absent.
    pub forge_mods: Vec<ForgeMod>,
    /// The mod-loader network version, when a manifest extension was
    /// present.
    pub fml_network_version: Option<i64>,
}

impl Status {
    /// Assembles a status record from its parts, exactly.
    pub fn from_parts(
        name: String,
        protocol: i32,
        max: i32,
        online: i32,
        description: String,
        favicon: Option<String>,
        forge_mods: Vec<ForgeMod>,
        fml_network_version: Option<i64>,
    ) -> (r: Status)
        ensures
            r.version.name == name,
            r.version.protocol == protocol,
            r.players.max == max,
            r.players.online == online,
            r.players.sample@.len() == 0,
            r.description == description,
            r.favicon == favicon,
            r.forge_mods == forge_mods,
            r.fml_network_version == fml_network_version,
    {
        Status {
            version: StatusVersion { name, protocol },
            players: StatusPlayers { max, online, sample: Vec::new() },
            description,
            favicon,
            forge_mods,
            fml_network_version,
        }
    }
}

/// The mathematical model of a JSON document: what an opaque parsed value
/// holds. Numbers are split into those a signed 64-bit integer can carry
/// (the only ones this parser reads by value) and the rest, which keep
/// their serialized token so that the model still determines the document's
/// text.
pub enum JsonModel {
    /// The null value.
    Null,
    /// A boolean.
    Bool(bool),
    /// A number representable as a signed 64-bit integer.
    Int(i64),
    /// Any other number, as its serialized token.
    OtherNum(Seq<char>),
    /// A string, as its character sequence.
    Str(Seq<char>),
    /// An array, as the models of its elements.
    Arr(Seq<JsonModel>),
    /// An object, as a map from member names to member models.
    Obj(Map<Seq<char>, JsonModel>),
}

/// The document a parsed JSON value holds.
pub uninterp spec fn json_model(v: serde_json::Value) -> JsonModel;

/// The document a text parses to, or `None` when the text is not JSON.
pub uninterp spec fn json_of(text: Seq<char>) -> Option<JsonModel>;

/// The text a document serializes to.
pub uninterp spec fn json_text(m: JsonModel) -> Seq<char>;

/// Whether serializing a document succeeds.
pub uninterp spec fn json_text_ok(m: JsonModel) -> bool;

/// The JSON value type of the serde_json crate, opaque to this library.
#[verifier::external_type_specification]
#[verifier::external_body]
pub struct ExJsonValue(serde_json::Value);

/// Relies on serde_json's `from_str`: parses a JSON document, or reports
/// malformed text; parsing is a function of the text alone.
#[verifier::external_body]
fn json_parse(s: &str) -> (r: Option<serde_json::Value>)
    ensures
        match r {
            Some(v) => json_of(s@) == Some(json_model(v)),
            None => json_of(s@) is None,
        },
{
    serde_json::from_str::<serde_json::Value>(s).ok()
}

/// Relies on serde_json's `Value::get`: the member of an object under a key,
/// and `None` on a non-object or a missing key.
#[verifier::external_body]
fn json_get<'a>(v: &'a serde_json::Value, key: &str) -> (r: Option<&'a serde_json::Value>)
    ensures
        match r {
            Some(x) => json_model(*v) matches JsonModel::Obj(o) && o.dom().contains(key@)
                && json_model(*x) == o[key@],
            None => !(json_model(*v) matches JsonModel::Obj(o) && o.dom().contains(key@)),
        },
{
    v.get(key)
}

/// Relies on serde_json's `Value::as_str`: the content of a string value,
/// and `None` on anything else.
#[verifier::external_body]
fn json_as_str(v: &serde_json::Value) -> (r: Option<String>)
    ensures
        match r {
            Some(s) => json_model(*v) == JsonModel::Str(s@),
            None => !(json_model(*v) is Str),
        },
{
    v.as_str().map(|s| s.to_string())
}

/// Relies on serde_json's `Value::as_i64`: the content of a number that a
/// signed 64-bit integer can carry, and `None` on anything else.
#[verifier::external_body]
fn json_as_i64(v: &serde_json::Value) -> (r: Option<i64>)
    ensures
        match r {
            Some(n) => json_model(*v) == JsonModel::Int(n),
            None => !(json_model(*v) is Int),
        },
{
    v.as_i64()
}

/// Relies on serde_json's `Value::as_array`: the elements of an array value,
/// and `None` on anything else.
#[verifier::external_body]
fn json_as_array<'a>(v: &'a serde_json::Value) -> (r: Option<&'a Vec<serde_json::Value>>)
    ensures
        match r {
            Some(arr) => json_model(*v) matches JsonModel::Arr(s) && arr@.len() == s.len()
                && forall|i: int| 0 <= i < s.len() ==> json_model(#[trigger] arr@[i]) == s[i],
            None => !(json_model(*v) is Arr),
        },
{
    v.as_array()
}

/// Relies on serde_json's equality between a value and a string: true
/// exactly for a string value with that content.
#[verifier::external_body]
fn json_eq_str(v: &serde_json::Value, s: &str) -> (r: bool)
    ensures
        r == (json_model(*v) == JsonModel::Str(s@)),
{
    v == s
}

/// Relies on serde_json's `to_string`: the document text of a value, a
/// function of the document alone.
#[verifier::external_body]
fn json_to_string(v: &serde_json::Value) -> (r: Option<String>)
    ensures
        match r {
            Some(t) => json_text_ok(json_model(*v)) && t@ == json_text(json_model(*v)),
            None => !json_text_ok(json_model(*v)),
        },
{
    serde_json::to_string(v).ok()
}

/// The member of an object document under a key.
pub open spec fn model_get(m: JsonModel, key: Seq<char>) -> Option<JsonModel> {
    match m {
        JsonModel::Obj(o) => if o.dom().contains(key) {
            Some(o[key])
        } else {
            None
        },
        _ => None,
    }
}

/// The character content of an optional string document.
pub open spec fn model_str(m: Option<JsonModel>) -> Option<Seq<char>> {
    match m {
        Some(JsonModel::Str(s)) => Some(s),
        _ => None,
    }
}

/// The integer content of an optional integer document.
pub open spec fn model_int(m: Option<JsonModel>) -> Option<i64> {
    match m {
        Some(JsonModel::Int(n)) => Some(n),
        _ => None,
    }
}

/// The required parts of a status document: the version name and protocol,
/// the player counts, and the description document; `None` when any is
/// missing or of the wrong type.
pub open spec fn spec_status_core(m: JsonModel) -> Option<
    (Seq<char>, i64, i64, i64, JsonModel),
> {
    match (model_get(m, "version"@), model_get(m, "players"@), model_get(m, "description"@)) {
        (Some(ver), Some(pl), Some(desc)) => {
            match (
                model_str(model_get(ver, "name"@)),
                model_int(model_get(ver, "protocol"@)),
                model_int(model_get(pl, "max"@)),
                model_int(model_get(pl, "online"@)),
            ) {
                (Some(name), Some(protocol), Some(max), Some(online)) => Some(
                    (name, protocol, max, online, desc),
                ),
                _ => None,
            }
        },
        _ => None,
    }
}

/// The optional favicon of a status document: present only as a string.
pub open spec fn spec_status_favicon(m: JsonModel) -> Option<Seq<char>> {
    model_str(model_get(m, "favicon"@))
}

/// The (id, version) pairs of a mod list, read under the given two member
/// names, in order; an entry without both members as strings is an error.
pub open spec fn spec_mod_entries(
    items: Seq<JsonModel>,
    id_key: Seq<char>,
    version_key: Seq<char>,
) -> Result<Seq<(Seq<char>, Seq<char>)>, ()>
    decreases items.len(),
{
    if items.len() == 0 {
        Ok(Seq::empty())
    } else {
        match (
            model_str(model_get(items[0], id_key)),
            model_str(model_get(items[0], version_key)),
        ) {
            (Some(id), Some(ver)) => match spec_mod_entries(
                items.drop_first(),
                id_key,
                version_key,
            ) {
                Ok(rest) => Ok(seq![(id, ver)] + rest),
                Err(()) => Err(()),
            },
            _ => Err(()),
        }
    }
}

/// The mods of the older single-field manifest: `Ok(None)` when the manifest
/// (or its well-formed list) is absent, the collected pairs when present,
/// and an error for a list entry without its required members.
pub open spec fn spec_modinfo(m: JsonModel) -> Result<
    Option<Seq<(Seq<char>, Seq<char>)>>,
    (),
> {
    match model_get(m, "modinfo"@) {
        None => Ok(None),
        Some(mi) => match model_get(mi, "type"@) {
            None => Ok(None),
            Some(t) => if t != JsonModel::Str("FML"@) {
                Ok(None)
            } else {
                match model_get(mi, "modList"@) {
                    None => Ok(None),
                    Some(l) => match l {
                        JsonModel::Arr(items) => match spec_mod_entries(
                            items,
                            "modid"@,
                            "version"@,
                        ) {
                            Ok(es) => Ok(Some(es)),
                            Err(()) => Err(()),
                        },
                        _ => Ok(None),
                    },
                }
            },
        },
    }
}

/// The mods and required network version of the newer structured manifest:
/// `Ok(None)` when the manifest is absent; when present, its mod list (empty
/// unless a well-formed array) and its mandatory network version, whose
/// absence is an error.
pub open spec fn spec_forge_data(m: JsonModel) -> Result<
    Option<(Seq<(Seq<char>, Seq<char>)>, i64)>,
    (),
> {
    match model_get(m, "forgeData"@) {
        None => Ok(None),
        Some(fd) => {
            let mods = match model_get(fd, "mods"@) {
                Some(JsonModel::Arr(items)) => spec_mod_entries(items, "modId"@, "modmarker"@),
                _ => Ok(Seq::empty()),
            };
            match mods {
                Err(()) => Err(()),
                Ok(es) => match model_int(model_get(fd, "fmlNetworkVersion"@)) {
                    Some(k) => Ok(Some((es, k))),
                    None => Err(()),
                },
            }
        },
    }
}

/// The (id, version) character pairs a mod list carries.
pub open spec fn mods_view(s: Seq<ForgeMod>) -> Seq<(Seq<char>, Seq<char>)> {
    s.map_values(|f: ForgeMod| (f.modid@, f.version@))
}

/// A 64-bit integer wrapped into its low 32 bits.
pub open spec fn spec_wrap32(x: i64) -> i32 {
    crate::serialize::i32_of_u32((crate::serialize::u64_of_i64(x) % 0x100000000) as u32)
}

/// Collects the mods of the older single-field manifest (`modinfo` with a
/// `modList` of `modid`/`version` entries) onto the end of `mods`; a list
/// entry without its required members is an invalid status.
fn parse_modinfo(val: &serde_json::Value, mods: &mut Vec<ForgeMod>) -> (res: Result<bool, Error>)
    ensures
        match spec_modinfo(json_model(*val)) {
            Err(()) => res == Err::<bool, Error>(Error::FieldDecodeFailure),
            Ok(None) => res == Ok::<bool, Error>(false) && final(mods)@ == old(mods)@,
            Ok(Some(es)) => res == Ok::<bool, Error>(true) && mods_view(final(mods)@) == mods_view(
                old(mods)@,
            ) + es,
        },
{
    let modinfo = match json_get(val, "modinfo") {
        Some(m) => m,
        None => {
            return Ok(false);
        },
    };
    let ty = match json_get(modinfo, "type") {
        Some(t) => t,
        None => {
            return Ok(false);
        },
    };
    if !json_eq_str(ty, "FML") {
        return Ok(false);
    }
    let modlist = match json_get(modinfo, "modList") {
        Some(l) => l,
        None => {
            return Ok(false);
        },
    };
    let items = match json_as_array(modlist) {
        Some(a) => a,
        None => {
            return Ok(false);
        },
    };
    let ghost s = json_model(*modlist)->Arr_0;
    collect_mod_entries(items, Ghost(s), "modid", "version", mods)
}

/// Collects one mod list's (id, version) pairs onto the end of `mods`,
/// reading the two given member names from each entry.
fn collect_mod_entries(
    items: &Vec<serde_json::Value>,
    models: Ghost<Seq<JsonModel>>,
    id_key: &str,
    version_key: &str,
    mods: &mut Vec<ForgeMod>,
) -> (res: Result<bool, Error>)
    requires
        items@.len() == models@.len(),
        forall|i: int| 0 <= i < models@.len() ==> json_model(#[trigger] items@[i]) == models@[i],
    ensures
        match spec_mod_entries(models@, id_key@, version_key@) {
            Err(()) => res == Err::<bool, Error>(Error::FieldDecodeFailure),
            Ok(es) => res == Ok::<bool, Error>(true) && mods_view(final(mods)@) == mods_view(
                old(mods)@,
            ) + es,
        },
{
    let mut i: usize = 0;
    let ghost mut done: Seq<(Seq<char>, Seq<char>)> = Seq::empty();
    proof {
        assert(mods_view(mods@) =~= mods_view(old(mods)@) + done);
        assert(models@.skip(0) =~= models@);
    }
    while i < items.len()
        invariant
            items@.len() == models@.len(),
            forall|j: int|
                0 <= j < models@.len() ==> json_model(#[trigger] items@[j]) == models@[j],
            i <= items@.len(),
            mods_view(mods@) == mods_view(old(mods)@) + done,
            match spec_mod_entries(models@.skip(i as int), id_key@, version_key@) {
                Ok(rest) => spec_mod_entries(models@, id_key@, version_key@) == Ok::<
                    Seq<(Seq<char>, Seq<char>)>,
                    (),
                >(done + rest),
                Err(()) => spec_mod_entries(models@, id_key@, version_key@) is Err,
            },
        decreases items@.len() - i,
    {
        proof {
            assert(models@.skip(i as int)[0] == models@[i as int]);
            assert(models@.skip(i as int).drop_first() =~= models@.skip(i as int + 1));
        }
        let modid = match json_get(&items[i], id_key) {
            Some(m) => match json_as_str(m) {
                Some(x) => x,
                None => {
                    return Err(Error::FieldDecodeFailure);
                },
            },
            None => {
                return Err(Error::FieldDecodeFailure);
            },
        };
        let version = match json_get(&items[i], version_key) {
            Some(m) => match json_as_str(m) {
                Some(x) => x,
                None => {
                    return Err(Error::FieldDecodeFailure);
                },
            },
            None => {
                return Err(Error::FieldDecodeFailure);
            },
        };
        let ghost before = mods_view(mods@);
        let ghost pair = (modid@, version@);
        proof {
            assert(model_str(model_get(models@[i as int], id_key@)) == Some(modid@));
            assert(model_str(model_get(models@[i as int], version_key@)) == Some(version@));
        }
        mods.push(ForgeMod { modid, version });
        proof {
            assert(mods_view(mods@) =~= before.push(pair));
            assert(mods_view(old(mods)@) + done.push(pair) =~= before.push(pair));
            match spec_mod_entries(models@.skip(i as int + 1), id_key@, version_key@) {
                Ok(rest) => {
                    assert(spec_mod_entries(models@.skip(i as int), id_key@, version_key@) == Ok::<
                        Seq<(Seq<char>, Seq<char>)>,
                        (),
                    >(seq![pair] + rest));
                    assert(done.push(pair) + rest =~= done + (seq![pair] + rest));
                },
                Err(()) => {},
            }
            done = done.push(pair);
        }
        i = i + 1;
    }
    proof {
        assert(models@.skip(i as int) =~= Seq::<JsonModel>::empty());
        match spec_mod_entries(models@, id_key@, version_key@) {
            Ok(es) => {
                assert(done + Seq::<(Seq<char>, Seq<char>)>::empty() =~= done);
            },
            Err(()) => {},
        }
    }
    Ok(true)
}

/// Collects the mods of the newer structured manifest (`forgeData` with a
/// `mods` list of `modId`/`modmarker` entries) onto the end of `mods` and
/// reads its required network version.
fn parse_forge_data(val: &serde_json::Value, mods: &mut Vec<ForgeMod>) -> (res: Result<
    Option<i64>,
    Error,
>)
    ensures
        match spec_forge_data(json_model(*val)) {
            Err(()) => res == Err::<Option<i64>, Error>(Error::FieldDecodeFailure),
            Ok(None) => res == Ok::<Option<i64>, Error>(None) && final(mods)@ == old(mods)@,
            Ok(Some((es, k))) => res == Ok::<Option<i64>, Error>(Some(k)) && mods_view(
                final(mods)@,
            ) == mods_view(old(mods)@) + es,
        },
{
    let forge_data = match json_get(val, "forgeData") {
        Some(f) => f,
        None => {
            return Ok(None);
        },
    };
    let ghost base = mods_view(mods@);
    match json_get(forge_data, "mods") {
        Some(list) => {
            match json_as_array(list) {
                Some(items) => {
                    let ghost s = json_model(*list)->Arr_0;
                    match collect_mod_entries(items, Ghost(s), "modId", "modmarker", mods) {
                        Ok(_) => {},
                        Err(e) => {
                            return Err(e);
                        },
                    }
                },
                None => {
                    proof {
                        assert(mods_view(mods@) =~= base + Seq::<(Seq<char>, Seq<char>)>::empty());
                    }
                },
            }
        },
        None => {
            proof {
                assert(mods_view(mods@) =~= base + Seq::<(Seq<char>, Seq<char>)>::empty());
            }
        },
    }
    match json_get(forge_data, "fmlNetworkVersion") {
        Some(v) => match json_as_i64(v) {
            Some(n) => Ok(Some(n)),
            None => Err(Error::FieldDecodeFailure),
        },
        None => Err(Error::FieldDecodeFailure),
    }
}

/// A 64-bit integer wrapped into its low 32 bits.
fn wrap_i64_to_i32(x: i64) -> (r: i32)
    ensures
        r == spec_wrap32(x),
{
    let u: u64 = if x >= 0 {
        x as u64
    } else {
        ((x - i64::MIN) as u64) + 0x8000000000000000
    };
    let m: u64 = u % 0x100000000;
    if m >= 0x80000000 {
        (m as i64 - 0x100000000) as i32
    } else {
        m as i32
    }
}

/// Parses a status document: the version block, player counts and
/// description are required (an absence or a wrong type is an invalid-status
/// error); the description is kept as its re-serialized document text; the
/// favicon and both mod-manifest extensions are optional vendor extensions
/// whose absence is normal. The result's fields are exactly the document's,
/// with the counts wrapped into 32 bits.
pub fn parse_status(json: &str) -> (res: Result<Status, Error>)
    ensures
        match json_of(json@) {
            None => res == Err::<Status, Error>(Error::FieldDecodeFailure),
            Some(m) => match spec_status_core(m) {
                None => res == Err::<Status, Error>(Error::FieldDecodeFailure),
                Some((name, protocol, max, online, desc)) => match spec_modinfo(m) {
                    Err(()) => res == Err::<Status, Error>(Error::FieldDecodeFailure),
                    Ok(mi) => match spec_forge_data(m) {
                        Err(()) => res == Err::<Status, Error>(Error::FieldDecodeFailure),
                        Ok(fd) => if json_text_ok(desc) {
                            res matches Ok(st) && st.version.name@ == name && st.version.protocol
                                == spec_wrap32(protocol) && st.players.max == spec_wrap32(max)
                                && st.players.online == spec_wrap32(online)
                                && st.players.sample@.len() == 0 && st.description@ == json_text(
                                desc,
                            ) && (match (st.favicon, spec_status_favicon(m)) {
                                (Some(f), Some(fs)) => f@ == fs,
                                (None, None) => true,
                                _ => false,
                            }) && mods_view(st.forge_mods@) == (match mi {
                                Some(es) => es,
                                None => Seq::empty(),
                            }) + (match fd {
                                Some((es2, _)) => es2,
                                None => Seq::empty(),
                            }) && st.fml_network_version == (match fd {
                                Some((_, k)) => Some(k),
                                None => if mi is Some {
                                    Some(1i64)
                                } else {
                                    None::<i64>
                                },
                            })
                        } else {
                            res == Err::<Status, Error>(Error::FieldDecodeFailure)
                        },
                    },
                },
            },
        },
{
    let val = match json_parse(json) {
        Some(v) => v,
        None => {
            return Err(Error::FieldDecodeFailure);
        },
    };
    let version = match json_get(&val, "version") {
        Some(v) => v,
        None => {
            return Err(Error::FieldDecodeFailure);
        },
    };
    let players = match json_get(&val, "players") {
        Some(v) => v,
        None => {
            return Err(Error::FieldDecodeFailure);
        },
    };
    let name = match json_get(version, "name") {
        Some(v) => match json_as_str(v) {
            Some(s) => s,
            None => {
                return Err(Error::FieldDecodeFailure);
            },
        },
        None => {
            return Err(Error::FieldDecodeFailure);
        },
    };
    let protocol = match json_get(version, "protocol") {
        Some(v) => match json_as_i64(v) {
            Some(n) => wrap_i64_to_i32(n),
            None => {
                return Err(Error::FieldDecodeFailure);
            },
        },
        None => {
            return Err(Error::FieldDecodeFailure);
        },
    };
    let max = match json_get(players, "max") {
        Some(v) => match json_as_i64(v) {
            Some(n) => wrap_i64_to_i32(n),
            None => {
                return Err(Error::FieldDecodeFailure);
            },
        },
        None => {
            return Err(Error::FieldDecodeFailure);
        },
    };
    let online = match json_get(players, "online") {
        Some(v) => match json_as_i64(v) {
            Some(n) => wrap_i64_to_i32(n),
            None => {
                return Err(Error::FieldDecodeFailure);
            },
        },
        None => {
            return Err(Error::FieldDecodeFailure);
        },
    };
    let description = match json_get(&val, "description") {
        Some(v) => match json_to_string(v) {
            Some(s) => s,
            None => {
                return Err(Error::FieldDecodeFailure);
            },
        },
        None => {
            return Err(Error::FieldDecodeFailure);
        },
    };
    let favicon = match json_get(&val, "favicon") {
        Some(v) => json_as_str(v),
        None => None,
    };
    let mut forge_mods: Vec<ForgeMod> = Vec::new();
    let mut fml_network_version: Option<i64> = None;
    match parse_modinfo(&val, &mut forge_mods) {
        Ok(true) => {
            fml_network_version = Some(1);
        },
        Ok(false) => {},
        Err(e) => {
            return Err(e);
        },
    }
    match parse_forge_data(&val, &mut forge_mods) {
        Ok(Some(n)) => {
            fml_network_version = Some(n);
        },
        Ok(None) => {},
        Err(e) => {
            return Err(e);
        },
    }
    proof {
        let m = json_model(val);
        match spec_modinfo(m) {
            Ok(mi) => match spec_forge_data(m) {
                Ok(fd) => {
                    let mi_es = match mi {
                        Some(es) => es,
                        None => Seq::empty(),
                    };
                    let fd_es = match fd {
                        Some((es2, _)) => es2,
                        None => Seq::empty(),
                    };
                    assert(mods_view(Seq::<ForgeMod>::empty()) =~= Seq::<(Seq<char>, Seq<
                        char,
                    >)>::empty());
                    assert((Seq::<(Seq<char>, Seq<char>)>::empty() + mi_es) + fd_es =~= mi_es
                        + fd_es);
                },
                Err(()) => {},
            },
            Err(()) => {},
        }
    }
    Ok(
        Status::from_parts(
            name,
            protocol,
            max,
            online,
            description,
            favicon,
            forge_mods,
            fml_network_version,
        ),
    )
}

impl Conn {
    /// The handshake packet opening this session: protocol version, target
    /// host and port, and the state to move to next.
    pub fn handshake_packet(&self, next: i32) -> (p: Packet)
        ensures
            p.internal_id == HANDSHAKE,
            models_of(p.fields@) == seq![
                FieldModel::VInt(VarInt(self.protocol_version)),
                FieldModel::Str(self.host@),
                FieldModel::U16(self.port),
                FieldModel::VInt(VarInt(next)),
            ],
    {
        let p = Packet {
            internal_id: HANDSHAKE,
            fields: vec![
                FieldValue::VInt(VarInt(self.protocol_version)),
                FieldValue::Str(self.host.clone()),
                FieldValue::U16(self.port),
                FieldValue::VInt(VarInt(next)),
            ],
        };
        proof {
            assert(models_of(p.fields@) =~= seq![
                FieldModel::VInt(VarInt(self.protocol_version)),
                FieldModel::Str(self.host@),
                FieldModel::U16(self.port),
                FieldModel::VInt(VarInt(next)),
            ]);
        }
        p
    }
}

/// The empty status request packet.
pub fn status_request_packet() -> (p: Packet)
    ensures
        p.internal_id == STATUS_REQUEST,
        models_of(p.fields@) == seq![FieldModel::Unit],
{
    let p = Packet { internal_id: STATUS_REQUEST, fields: vec![FieldValue::Unit] };
    proof {
        assert(models_of(p.fields@) =~= seq![FieldModel::Unit]);
    }
    p
}

/// The status ping packet carrying an arbitrary marker value.
pub fn status_ping_packet(marker: i64) -> (p: Packet)
    ensures
        p.internal_id == STATUS_PING,
        models_of(p.fields@) == seq![FieldModel::I64(marker)],
{
    let p = Packet { internal_id: STATUS_PING, fields: vec![FieldValue::I64(marker)] };
    proof {
        assert(models_of(p.fields@) =~= seq![FieldModel::I64(marker)]);
    }
    p
}

/// Demands that a received packet is exactly a status response and hands out
/// its JSON document text; any other packet is a protocol error.
pub fn expect_status_response(p: &Packet) -> (res: Result<String, Error>)
    ensures
        match res {
            Ok(s) => p.internal_id == STATUS_RESPONSE && p.fields@.len() == 1 && models_of(
                p.fields@,
            )[0] == FieldModel::Str(s@),
            Err(e) => e == (Error::UnknownPacket { wire_id: p.internal_id }) && !(p.internal_id
                == STATUS_RESPONSE && p.fields@.len() == 1 && models_of(p.fields@)[0] is Str),
        },
{
    if p.internal_id == STATUS_RESPONSE && p.fields.len() == 1 {
        match &p.fields[0] {
            FieldValue::Str(s) => {
                proof {
                    assert(models_of(p.fields@)[0] == p.fields@[0]@);
                }
                return Ok(s.clone());
            },
            _ => {
                proof {
                    assert(models_of(p.fields@)[0] == p.fields@[0]@);
                }
            },
        }
    }
    Err(Error::UnknownPacket { wire_id: p.internal_id })
}

/// Demands that a received packet is exactly the status pong matching the
/// ping marker sent; any other packet, or a different marker, is a protocol
/// error.
pub fn expect_status_pong(p: &Packet, marker: i64) -> (res: Result<(), Error>)
    ensures
        match res {
            Ok(()) => p.internal_id == STATUS_PONG && p.fields@.len() == 1 && models_of(p.fields@)[0]
                == FieldModel::I64(marker),
            Err(e) => e == (Error::UnknownPacket { wire_id: p.internal_id }) && !(p.internal_id
                == STATUS_PONG && p.fields@.len() == 1 && models_of(p.fields@)[0]
                == FieldModel::I64(marker)),
        },
{
    if p.internal_id == STATUS_PONG && p.fields.len() == 1 {
        match &p.fields[0] {
            FieldValue::I64(x) => {
                proof {
                    assert(models_of(p.fields@)[0] == p.fields@[0]@);
                }
                if *x == marker {
                    return Ok(());
                }
            },
            _ => {
                proof {
                    assert(models_of(p.fields@)[0] == p.fields@[0]@);
                }
            },
        }
    }
    Err(Error::UnknownPacket { wire_id: p.internal_id })
}

/// The round-trip time between sending the ping and receiving the pong, in
/// the caller's clock units.
pub fn ping_duration(sent_at: u64, received_at: u64) -> (r: u64)
    requires
        sent_at <= received_at,
    ensures
        r == received_at - sent_at,
{
    received_at - sent_at
}


/// Recognizes a server-initiated disconnect: a login disconnect packet turns
/// into the categorized error carrying the server's reason verbatim; any
/// other packet is left to its caller.
pub fn remote_disconnect_error(p: &Packet) -> (res: Option<Error>)
    ensures
        match res {
            Some(e) => p.internal_id == crate::packet::LOGIN_DISCONNECT && p.fields@.len() == 1
                && (e matches Error::RemoteDisconnect(reason) && models_of(p.fields@)[0]
                == FieldModel::Str(reason@)),
            None => !(p.internal_id == crate::packet::LOGIN_DISCONNECT && p.fields@.len() == 1
                && models_of(p.fields@)[0] is Str),
        },
{
    if p.internal_id == crate::packet::LOGIN_DISCONNECT && p.fields.len() == 1 {
        match &p.fields[0] {
            FieldValue::Str(reason) => {
                proof {
                    assert(models_of(p.fields@)[0] == p.fields@[0]@);
                }
                return Some(Error::RemoteDisconnect(reason.clone()));
            },
            _ => {
                proof {
                    assert(models_of(p.fields@)[0] == p.fields@[0]@);
                }
            },
        }
    }
    None
}

} // verus!
