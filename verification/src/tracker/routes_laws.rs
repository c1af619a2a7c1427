//! What holds of the tracker's answers, and of what it stores, whatever its
//! clients send.

use vstd::prelude::*;
use vstd::utf8::encode_utf8;

use crate::text::{is_control, is_hex_digit, is_lower_hex_digit};
use crate::tracker::routes::{
    after_announce, announce_reply, asked_for, client_of, is_content_key, is_display_safe, is_json,
    is_query_key, is_valid_announce, is_valid_meta, meta_carried, page_size, AnnounceModel, Reply,
    MAX_ADDR_INFO_LEN, MAX_NODE_ID_LEN, STATUS_OK,
};
use crate::tracker::store::{live, upserted, without_node, ClientAddr, PeerModel, StoreModel};
use crate::tracker::store_laws::{law_announce_then_get, lemma_filtered, lemma_position_of};
use crate::tracker::ui::{
    can_render, can_shorten, is_page, is_page_if_any, lemma_short_keys_render,
};

verus! {

/// An announce that is refused changes nothing that the tracker tells of any
/// content, and an announce that is not refused is answered with success.
pub proof fn law_refused_announce_changes_nothing(
    s: StoreModel,
    client: (u8, u128),
    body: AnnounceModel,
    valid: bool,
    tick: u128,
    now: u64,
)
    ensures
        ({
            let after = after_announce(s, client, body, valid, tick, now);
            let reply = announce_reply(s.may_announce(client, tick), valid);
            &&& reply.status_spec() != STATUS_OK ==> after.peers == s.peers && after.meta == s.meta
                && after.first_seen == s.first_seen
            &&& reply.status_spec() == STATUS_OK <==> s.may_announce(client, tick) && valid
        }),
{
}

/// An announce that is accepted is told to whoever asks for the content, as long
/// as it is good, and describes the content where it carries a description.
pub proof fn law_accepted_announce_is_told(
    s: StoreModel,
    client: (u8, u128),
    body: AnnounceModel,
    tick: u128,
    now: u64,
    later: u64,
)
    requires
        s.consistent(),
        s.may_announce(client, tick),
        later <= now + s.ttl_secs,
    ensures
        ({
            let after = after_announce(s, client, body, true, tick, now);
            &&& live(after.peers_of(body.content_key), after.cutoff(later)).contains(
                PeerModel { node_id: body.node_id, addr_info: body.addr_info, last_seen: now },
            )
            &&& meta_carried(body.meta) is Some ==> after.meta_of(body.content_key) == body.meta
        }),
{
    let counted = s.counted(client, tick);
    assert(counted.consistent());
    law_announce_then_get(
        counted,
        body.content_key,
        body.node_id,
        body.addr_info,
        meta_carried(body.meta),
        now,
        later,
    );
}

/// A content key is announced as 64 hexadecimal digits of either case, and asked for
/// as 64 of the digits 0 to 9 and a to f.
pub proof fn law_keys_are_64_hex_digits(key: Seq<char>)
    ensures
        is_content_key(key) <==> key.len() == 64 && forall|i: int|
            0 <= i < 64 ==> '0' <= #[trigger] key[i] <= '9' || 'a' <= key[i] <= 'f' || 'A' <= key[i]
                <= 'F',
        is_query_key(key) <==> key.len() == 64 && forall|i: int|
            0 <= i < 64 ==> '0' <= #[trigger] key[i] <= '9' || 'a' <= key[i] <= 'f',
{
    if key.len() == 64 {
        if forall|i: int|
            0 <= i < 64 ==> '0' <= #[trigger] key[i] <= '9' || 'a' <= key[i] <= 'f' || 'A' <= key[i]
                <= 'F' {
            assert forall|i: int| 0 <= i < key.len() implies is_hex_digit(#[trigger] key[i]) by {}
        }
        if is_content_key(key) {
            assert forall|i: int| 0 <= i < 64 implies '0' <= #[trigger] key[i] <= '9' || 'a'
                <= key[i] <= 'f' || 'A' <= key[i] <= 'F' by {
                assert(is_hex_digit(key[i]));
            }
        }
        if is_query_key(key) {
            assert forall|i: int| 0 <= i < 64 implies '0' <= #[trigger] key[i] <= '9' || 'a'
                <= key[i] <= 'f' by {
                assert(is_lower_hex_digit(key[i]));
            }
        }
    }
}

/// A text is fit to be shown: it is not empty, takes no more bytes than the bound, and
/// has none of the control characters below the space, the delete, and the 32 behind
/// it.
pub open spec fn fit_to_show(s: Seq<char>, max: int) -> bool {
    &&& s.len() > 0
    &&& encode_utf8(s).len() <= max
    &&& forall|i: int|
        0 <= i < s.len() ==> #[trigger] s[i] >= ' ' && !('\u{7f}' <= s[i] <= '\u{9f}')
}

/// What an announce must say to be taken: a content key, a node of 1 to 128 bytes, an
/// address of 1 to 8192 bytes that is JSON, and, where it describes the content, a
/// filename of at most 512 bytes and a format of at most 32 that are fit to be shown.
/// The size may be any number.
pub proof fn law_announces_that_are_taken(body: AnnounceModel, addr_is_json: bool)
    ensures
        is_valid_announce(body, addr_is_json) <==> ({
            &&& is_content_key(body.content_key)
            &&& body.node_id.len() > 0
            &&& encode_utf8(body.node_id).len() <= 128
            &&& body.addr_info.len() > 0
            &&& encode_utf8(body.addr_info).len() <= 8192
            &&& addr_is_json
            &&& body.meta.filename is None || fit_to_show(body.meta.filename->0, 512)
            &&& body.meta.format is None || fit_to_show(body.meta.format->0, 32)
        }),
{
    if body.meta.filename is Some {
        lemma_fit_to_show(body.meta.filename->0, 512);
    }
    if body.meta.format is Some {
        lemma_fit_to_show(body.meta.format->0, 32);
    }
}

/// A text that is safe to display is fit to be shown, and the other way round.
proof fn lemma_fit_to_show(s: Seq<char>, max: nat)
    ensures
        is_display_safe(s, max) <==> fit_to_show(s, max as int),
{
    if is_display_safe(s, max) {
        assert forall|i: int| 0 <= i < s.len() implies #[trigger] s[i] >= ' ' && !('\u{7f}' <= s[i]
            <= '\u{9f}') by {
            assert(!is_control(s[i]));
            lemma_control(s[i]);
        }
    }
    if fit_to_show(s, max as int) {
        assert forall|i: int| 0 <= i < s.len() implies !is_control(#[trigger] s[i]) by {
            lemma_control(s[i]);
        }
    }
}

/// The control characters.
proof fn lemma_control(c: char)
    ensures
        is_control(c) <==> c < ' ' || '\u{7f}' <= c <= '\u{9f}',
{
}

/// An announce is answered by what is wrong with it: too many are refused with 429,
/// whatever they say; of the others malformed ones with 400; and the rest is taken,
/// with 200. A malformed key in a question is refused with 400.
pub proof fn law_replies(allowed: bool, valid: bool)
    ensures
        announce_reply(allowed, valid) == if !allowed {
            Reply::RateLimited
        } else if !valid {
            Reply::InvalidRequest
        } else {
            Reply::Done
        },
        announce_reply(allowed, valid).status_spec() == if !allowed {
            429u16
        } else if !valid {
            400u16
        } else {
            200u16
        },
        Reply::InvalidContentKey.status_spec() == 400,
{
}

/// Every announce is counted for its client, also one that is refused; what it says is
/// recorded exactly if it is allowed and valid, with its description where it has any
/// field of one.
pub proof fn law_what_an_announce_changes(
    s: StoreModel,
    client: (u8, u128),
    body: AnnounceModel,
    valid: bool,
    tick: u128,
    now: u64,
)
    ensures
        ({
            let after = after_announce(s, client, body, valid, tick, now);
            let described = body.meta.filename is Some || body.meta.format is Some
                || body.meta.size is Some;
            &&& after.rates == s.counted(client, tick).rates
            &&& after.ttl_secs == s.ttl_secs
            &&& after.rate_limit_per_min == s.rate_limit_per_min
            &&& !(s.may_announce(client, tick) && valid) ==> after.peers == s.peers && after.meta
                == s.meta && after.first_seen == s.first_seen
            &&& s.may_announce(client, tick) && valid ==> ({
                let told = s.announced(
                    body.content_key,
                    body.node_id,
                    body.addr_info,
                    if described {
                        Some(body.meta)
                    } else {
                        None
                    },
                    now,
                );
                after.peers == told.peers && after.meta == told.meta && after.first_seen
                    == told.first_seen
            })
        }),
{
}

/// A request whose sender is not known counts for 127.0.0.1, any other for its sender.
pub proof fn law_unknown_sender_is_local(addr: ClientAddr)
    ensures
        client_of(None) == ClientAddr::V4(0x7f00_0001),
        client_of(Some(addr)) == addr,
{
}

/// A listing has as many rows as were asked for, but no more than 500, and 100 where
/// nothing was asked for.
pub proof fn law_page_sizes(asked: usize)
    ensures
        page_size(None) == 100,
        asked <= 500 ==> page_size(Some(asked)) == asked,
        asked >= 500 ==> page_size(Some(asked)) == 500,
{
}

/// A form field asks for what it holds, and for nothing where it is empty or missing.
pub proof fn law_form_fields(text: Seq<char>)
    ensures
        asked_for(None) is None,
        asked_for(Some(Seq::empty())) is None,
        text.len() > 0 ==> asked_for(Some(text)) == Some(text),
{
}

/// Every key that can be asked for can be announced.
pub proof fn law_query_keys_are_content_keys(key: Seq<char>)
    requires
        is_query_key(key),
    ensures
        is_content_key(key),
{
    assert forall|i: int| 0 <= i < key.len() implies is_hex_digit(#[trigger] key[i]) by {
        assert(is_lower_hex_digit(key[i]));
    }
}

/// A peer is fit to be handed to downloaders.
pub open spec fn is_fit_peer(p: PeerModel) -> bool {
    &&& p.node_id.len() > 0
    &&& encode_utf8(p.node_id).len() <= MAX_NODE_ID_LEN
    &&& p.addr_info.len() > 0
    &&& encode_utf8(p.addr_info).len() <= MAX_ADDR_INFO_LEN
    &&& is_json(p.addr_info)
}

/// All peers of a list are fit.
pub open spec fn all_fit(s: Seq<PeerModel>) -> bool {
    forall|i: int| 0 <= i < s.len() ==> is_fit_peer(#[trigger] s[i])
}

/// Everything that the store holds is well-formed: its keys are content keys, its
/// peers are fit to be handed out, and its descriptions are fit to be shown.
pub open spec fn is_well_formed(s: StoreModel) -> bool {
    &&& forall|k: Seq<char>| #[trigger]
        s.peers.contains_key(k) ==> is_content_key(k) && all_fit(s.peers[k])
    &&& forall|k: Seq<char>| #[trigger] s.meta.contains_key(k) ==> is_valid_meta(s.meta[k])
}

/// Whatever clients send, the store stays well-formed: it is so at the start, and
/// announces, leave notices and evictions keep it so.
pub proof fn law_store_stays_well_formed(
    s: StoreModel,
    client: (u8, u128),
    body: AnnounceModel,
    tick: u128,
    now: u64,
    key: Seq<char>,
    node_id: Seq<char>,
)
    requires
        is_well_formed(s),
    ensures
        is_well_formed(StoreModel::empty(s.ttl_secs, s.rate_limit_per_min)),
        is_well_formed(
            after_announce(
                s,
                client,
                body,
                is_valid_announce(body, is_json(body.addr_info)),
                tick,
                now,
            ),
        ),
        is_well_formed(s.left(key, node_id)),
        is_well_formed(s.evicted(now)),
{
    let valid = is_valid_announce(body, is_json(body.addr_info));
    let after = after_announce(s, client, body, valid, tick, now);
    if s.may_announce(client, tick) && valid {
        let e = PeerModel { node_id: body.node_id, addr_info: body.addr_info, last_seen: now };
        let before = s.peers_of(body.content_key);
        lemma_position_of(before, e.node_id);
        assert(is_fit_peer(e));
        assert forall|i: int| 0 <= i < upserted(before, e).len() implies is_fit_peer(
            #[trigger] upserted(before, e)[i],
        ) by {
            if i < before.len() {
                assert(is_fit_peer(before[i]));
            }
        }
        assert(after.peers[body.content_key] == upserted(before, e));
        assert(all_fit(upserted(before, e)));
    }
    let left = s.left(key, node_id);
    if s.peers.contains_key(key) {
        lemma_fit_filtered(s.peers[key], |p: PeerModel| p.node_id != node_id);
        assert(left.peers[key] == without_node(s.peers[key], node_id));
    }
    let cutoff = s.cutoff(now);
    assert forall|k: Seq<char>| #[trigger]
        s.evicted(now).peers.contains_key(k) implies is_content_key(k) && all_fit(
        s.evicted(now).peers[k],
    ) by {
        lemma_fit_filtered(s.peers[k], |p: PeerModel| p.last_seen >= cutoff);
        assert(s.evicted(now).peers[k] == live(s.peers[k], cutoff));
    }
}

/// A part of fit peers is fit.
proof fn lemma_fit_filtered(s: Seq<PeerModel>, pred: spec_fn(PeerModel) -> bool)
    requires
        all_fit(s),
    ensures
        all_fit(s.filter(pred)),
{
    lemma_filtered(s, pred);
    let t = s.filter(pred);
    assert forall|i: int| 0 <= i < t.len() implies is_fit_peer(#[trigger] t[i]) by {
        assert(t.contains(t[i]));
        let j = choose|j: int| 0 <= j < s.len() && s[j] == t[i];
        assert(is_fit_peer(s[j]));
    }
}

/// Every page can be rendered of every store that is well-formed, whatever is asked
/// for and whenever.
pub proof fn law_page_of_well_formed_store(
    s: StoreModel,
    format: Option<Seq<char>>,
    q_lower: Option<Seq<char>>,
    limit: nat,
    now: u64,
)
    requires
        is_well_formed(s),
    ensures
        can_render(s, format, q_lower, limit, now),
{
    assert forall|k: Seq<char>| #[trigger] s.peers.contains_key(k) implies can_shorten(k) by {
        lemma_key_can_be_shortened(k);
    }
    lemma_short_keys_render(s, format, q_lower, limit, now);
}

/// Whatever clients announced, there is a page, whatever is asked for and whenever;
/// and there is none only where a key that it would list cannot be shortened.
pub proof fn law_there_is_a_page(
    s: StoreModel,
    format: Option<Seq<char>>,
    q: Option<Seq<char>>,
    q_lower: Option<Seq<char>>,
    limit: nat,
    now: u64,
    out: Option<Seq<char>>,
)
    requires
        is_page_if_any(s, format, q, q_lower, limit, now, out),
    ensures
        is_well_formed(s) ==> out is Some,
        out matches Some(page) ==> is_page(s, format, q, q_lower, limit, now, page),
        out is None ==> exists|k: Seq<char>|
            s.peers.contains_key(k) && !(#[trigger] can_shorten(k)),
{
    if is_well_formed(s) {
        law_page_of_well_formed_store(s, format, q_lower, limit, now);
    }
    if out is None && forall|k: Seq<char>| s.peers.contains_key(k) ==> #[trigger] can_shorten(k) {
        lemma_short_keys_render(s, format, q_lower, limit, now);
    }
}

/// A key can be shortened unless its first 16 bytes end within a character; so every
/// key of no more than 16 bytes can, and every key of ASCII.
pub proof fn law_keys_that_can_be_shortened(key: Seq<char>)
    ensures
        encode_utf8(key).len() <= 16 ==> can_shorten(key),
        encode_utf8(key).len() > 16 ==> (can_shorten(key) <==> !(0x80 <= encode_utf8(key)[16]
            < 0xc0)),
{
    let bytes = encode_utf8(key);
    if bytes.len() > 16 {
        vstd::utf8::encode_utf8_valid_utf8(key);
        vstd::utf8::is_char_boundary_iff_not_is_continuation_byte(bytes, 16);
    }
}

/// A content key can be shortened.
proof fn lemma_key_can_be_shortened(key: Seq<char>)
    requires
        is_content_key(key),
    ensures
        can_shorten(key),
{
    assert(vstd::utf8::is_ascii_chars(key)) by {
        assert forall|i: int| 0 <= i < key.len() implies '\0' <= #[trigger] key[i] <= '\u{7f}' by {
            assert(is_hex_digit(key[i]));
        }
    }
    vstd::utf8::is_ascii_chars_encode_utf8(key);
    vstd::utf8::encode_utf8_valid_utf8(key);
    let bytes = encode_utf8(key);
    assert(key[16] as u8 == bytes[16]);
    assert(is_hex_digit(key[16]));
    assert(bytes[16] < 0x80);
    vstd::utf8::is_char_boundary_iff_not_is_continuation_byte(bytes, 16);
}

} // verus!
