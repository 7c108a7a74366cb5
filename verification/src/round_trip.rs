//! Both wire forms round-trip: what a packet decodes to is encoded back into
//! bytes that decode to the same packet.
use crate::callsign::{
    ax25_callsign, lemma_callsign_round_trip, lemma_decode_callsign_ax25_wf,
    lemma_decode_callsign_wf, spec_decode_callsign, spec_decode_callsign_ax25,
    spec_encode_callsign, spec_encode_callsign_ax25, CallsignView,
};
use crate::digipeater::{
    header_piece, lemma_callsign_piece, lemma_parse_via_wf, lemma_via_pieces_push,
    lemma_via_round_trip, spec_encode_digipeater, spec_parse_via, via_q_exact, via_pieces,
    via_wf, digi_pieces, DigipeaterView,
};
use crate::error::AprsErrorView;
use crate::grid::{lemma_grid_round_trip, spec_encode_grid, spec_parse_grid};
use crate::item::lemma_item_round_trip;
use crate::object::lemma_object_round_trip;
use crate::position::lemma_position_report_round_trip;
use crate::query::lemma_query_round_trip;
use crate::telemetry::lemma_telemetry_round_trip;
use crate::weather::lemma_positionless_weather_round_trip;
use crate::mic_e::{lemma_mic_e_round_trip, mic_e_exact};
use crate::message::{lemma_message_round_trip, spec_encode_message, spec_parse_message};
use crate::packet::{
    data_encodable, lemma_dispatch_grid, lemma_dispatch_item, lemma_dispatch_object,
    lemma_dispatch_position, lemma_dispatch_query, lemma_dispatch_telemetry,
    lemma_dispatch_weather, lemma_dispatch_mic_e, lemma_dispatch_kind, lemma_dispatch_message,
    lemma_dispatch_raw, lemma_dispatch_status, lemma_dispatch_third_party, lemma_dispatch_unknown,
    spec_ax25_tail, spec_ax25_via, spec_ax25_via_fields, spec_decode_ax25, spec_decode_fields,
    spec_decode_textual, spec_dispatch_data, spec_encode_ax25, spec_encode_ax25_via,
    spec_encode_digi_ax25,
    spec_encode_info, spec_encode_textual, spec_encode_via, AprsDataView, AprsPacketView,
};
use crate::status::{after_dti, lemma_status_round_trip, spec_encode_status, spec_parse_status};
use crate::util::{index_of, join, lacks, lemma_index_of, lemma_index_of_at, lemma_join_append, lemma_join_lacks};
use vstd::prelude::*;

verus! {

/// Content that the round trip below covers: every kind, but for a MIC-E
/// report whose values its written form cannot carry (`mic_e_exact`), also
/// inside a third-party packet.
pub open spec fn data_covered(d: AprsDataView, to: CallsignView) -> bool
    decreases d,
{
    match d {
        AprsDataView::ThirdParty(p) => via_q_exact(p.via) && data_covered(p.data, p.to),
        AprsDataView::MicE(m) => mic_e_exact(m, to),
        _ => true,
    }
}

/// A decoded packet that the round trip covers: its content can be encoded,
/// and every Q-construct of its via path is given back by its token.
pub open spec fn packet_covered(p: AprsPacketView) -> bool {
    &&& data_encodable(p.data)
    &&& via_q_exact(p.via)
    &&& data_covered(p.data, p.to)
}

/// The written via path is a comma and the joined pieces of its elements.
proof fn lemma_encode_via_join(vs: Seq<DigipeaterView>)
    requires
        vs.len() > 0,
    ensures
        spec_encode_via(vs) == seq![44u8] + join(via_pieces(vs), 44u8),
        via_pieces(vs).len() > 0,
    decreases vs.len(),
{
    let last = vs.last();
    let init = vs.drop_last();
    assert(vs =~= init.push(last));
    lemma_via_pieces_push(init, last);
    assert(digi_pieces(last).len() > 0);
    assert(join(digi_pieces(last), 44u8) == spec_encode_digipeater(last)) by {
        match last {
            DigipeaterView::Callsign(_, _) => {},
            DigipeaterView::QConstruct(q, gw) => {
                assert(digi_pieces(last).drop_first() =~= seq![spec_encode_callsign(gw)]);
                assert(join(digi_pieces(last).drop_first(), 44u8) == spec_encode_callsign(gw));
            },
        }
    }
    if init.len() == 0 {
        assert(via_pieces(init) =~= Seq::<Seq<u8>>::empty());
        assert(via_pieces(vs) =~= digi_pieces(last));
        assert(spec_encode_via(init) =~= Seq::<u8>::empty());
        assert(spec_encode_via(vs) =~= seq![44u8] + join(via_pieces(vs), 44u8));
    } else {
        lemma_encode_via_join(init);
        lemma_join_append(via_pieces(init), digi_pieces(last), 44u8);
        assert(spec_encode_via(vs) =~= seq![44u8] + join(via_pieces(vs), 44u8));
    }
}

proof fn lemma_data_case_position(info: Seq<u8>, to: CallsignView)
    requires
        spec_dispatch_data(info, to) is Ok,
        spec_dispatch_data(info, to)->Ok_0 is Position,
        data_encodable(spec_dispatch_data(info, to)->Ok_0),
        data_covered(spec_dispatch_data(info, to)->Ok_0, to),
    ensures
        spec_dispatch_data(spec_encode_info(spec_dispatch_data(info, to)->Ok_0), to)
            == spec_dispatch_data(info, to),
{
    let d = spec_dispatch_data(info, to)->Ok_0;
    let e = spec_encode_info(d);
    lemma_dispatch_kind(info, to);
    lemma_dispatch_position(info, to);
    lemma_position_report_round_trip(info);
    lemma_dispatch_position(e, to);
}

proof fn lemma_data_case_object(info: Seq<u8>, to: CallsignView)
    requires
        spec_dispatch_data(info, to) is Ok,
        spec_dispatch_data(info, to)->Ok_0 is Object,
        data_encodable(spec_dispatch_data(info, to)->Ok_0),
        data_covered(spec_dispatch_data(info, to)->Ok_0, to),
    ensures
        spec_dispatch_data(spec_encode_info(spec_dispatch_data(info, to)->Ok_0), to)
            == spec_dispatch_data(info, to),
{
    let d = spec_dispatch_data(info, to)->Ok_0;
    let e = spec_encode_info(d);
    lemma_dispatch_kind(info, to);
    lemma_dispatch_object(info, to);
    lemma_object_round_trip(info);
    lemma_dispatch_object(e, to);
}

proof fn lemma_data_case_item(info: Seq<u8>, to: CallsignView)
    requires
        spec_dispatch_data(info, to) is Ok,
        spec_dispatch_data(info, to)->Ok_0 is Item,
        data_encodable(spec_dispatch_data(info, to)->Ok_0),
        data_covered(spec_dispatch_data(info, to)->Ok_0, to),
    ensures
        spec_dispatch_data(spec_encode_info(spec_dispatch_data(info, to)->Ok_0), to)
            == spec_dispatch_data(info, to),
{
    let d = spec_dispatch_data(info, to)->Ok_0;
    let e = spec_encode_info(d);
    lemma_dispatch_kind(info, to);
    lemma_dispatch_item(info, to);
    lemma_item_round_trip(info);
    lemma_dispatch_item(e, to);
}

proof fn lemma_data_case_weather(info: Seq<u8>, to: CallsignView)
    requires
        spec_dispatch_data(info, to) is Ok,
        spec_dispatch_data(info, to)->Ok_0 is Weather,
        data_encodable(spec_dispatch_data(info, to)->Ok_0),
        data_covered(spec_dispatch_data(info, to)->Ok_0, to),
    ensures
        spec_dispatch_data(spec_encode_info(spec_dispatch_data(info, to)->Ok_0), to)
            == spec_dispatch_data(info, to),
{
    let d = spec_dispatch_data(info, to)->Ok_0;
    let e = spec_encode_info(d);
    lemma_dispatch_kind(info, to);
    lemma_dispatch_weather(info, to);
    lemma_positionless_weather_round_trip(info);
    lemma_dispatch_weather(e, to);
}

proof fn lemma_data_case_telemetry(info: Seq<u8>, to: CallsignView)
    requires
        spec_dispatch_data(info, to) is Ok,
        spec_dispatch_data(info, to)->Ok_0 is Telemetry,
        data_encodable(spec_dispatch_data(info, to)->Ok_0),
        data_covered(spec_dispatch_data(info, to)->Ok_0, to),
    ensures
        spec_dispatch_data(spec_encode_info(spec_dispatch_data(info, to)->Ok_0), to)
            == spec_dispatch_data(info, to),
{
    let d = spec_dispatch_data(info, to)->Ok_0;
    let e = spec_encode_info(d);
    lemma_dispatch_kind(info, to);
    lemma_dispatch_telemetry(info, to);
    lemma_telemetry_round_trip(info);
    lemma_dispatch_telemetry(e, to);
}

proof fn lemma_data_case_query(info: Seq<u8>, to: CallsignView)
    requires
        spec_dispatch_data(info, to) is Ok,
        spec_dispatch_data(info, to)->Ok_0 is Query,
        data_encodable(spec_dispatch_data(info, to)->Ok_0),
        data_covered(spec_dispatch_data(info, to)->Ok_0, to),
    ensures
        spec_dispatch_data(spec_encode_info(spec_dispatch_data(info, to)->Ok_0), to)
            == spec_dispatch_data(info, to),
{
    let d = spec_dispatch_data(info, to)->Ok_0;
    let e = spec_encode_info(d);
    lemma_dispatch_kind(info, to);
    lemma_dispatch_query(info, to);
    lemma_query_round_trip(info);
    lemma_dispatch_query(e, to);
}

proof fn lemma_data_case_message(info: Seq<u8>, to: CallsignView)
    requires
        spec_dispatch_data(info, to) is Ok,
        spec_dispatch_data(info, to)->Ok_0 is Message,
        data_encodable(spec_dispatch_data(info, to)->Ok_0),
        data_covered(spec_dispatch_data(info, to)->Ok_0, to),
    ensures
        spec_dispatch_data(spec_encode_info(spec_dispatch_data(info, to)->Ok_0), to)
            == spec_dispatch_data(info, to),
{
    let d = spec_dispatch_data(info, to)->Ok_0;
    let e = spec_encode_info(d);
    lemma_dispatch_kind(info, to);
    lemma_dispatch_message(info, to);
    lemma_message_round_trip(info);
    lemma_dispatch_message(e, to);
}

proof fn lemma_data_case_status(info: Seq<u8>, to: CallsignView)
    requires
        spec_dispatch_data(info, to) is Ok,
        spec_dispatch_data(info, to)->Ok_0 is Status,
        data_encodable(spec_dispatch_data(info, to)->Ok_0),
        data_covered(spec_dispatch_data(info, to)->Ok_0, to),
    ensures
        spec_dispatch_data(spec_encode_info(spec_dispatch_data(info, to)->Ok_0), to)
            == spec_dispatch_data(info, to),
{
    let d = spec_dispatch_data(info, to)->Ok_0;
    let e = spec_encode_info(d);
    lemma_dispatch_kind(info, to);
    lemma_dispatch_status(info, to);
    lemma_status_round_trip(info);
    lemma_dispatch_status(e, to);
}

proof fn lemma_data_case_grid(info: Seq<u8>, to: CallsignView)
    requires
        spec_dispatch_data(info, to) is Ok,
        spec_dispatch_data(info, to)->Ok_0 is GridLocator,
        data_encodable(spec_dispatch_data(info, to)->Ok_0),
        data_covered(spec_dispatch_data(info, to)->Ok_0, to),
    ensures
        spec_dispatch_data(spec_encode_info(spec_dispatch_data(info, to)->Ok_0), to)
            == spec_dispatch_data(info, to),
{
    let d = spec_dispatch_data(info, to)->Ok_0;
    let e = spec_encode_info(d);
    lemma_dispatch_kind(info, to);
    lemma_dispatch_grid(info, to);
    lemma_grid_round_trip(info);
    assert(e =~= info);
}

proof fn lemma_data_case_raw(info: Seq<u8>, to: CallsignView)
    requires
        spec_dispatch_data(info, to) is Ok,
        spec_dispatch_data(info, to)->Ok_0 is Capabilities || spec_dispatch_data(info, to)->Ok_0 is Nmea
            || spec_dispatch_data(info, to)->Ok_0 is UserDefined,
        data_encodable(spec_dispatch_data(info, to)->Ok_0),
        data_covered(spec_dispatch_data(info, to)->Ok_0, to),
    ensures
        spec_dispatch_data(spec_encode_info(spec_dispatch_data(info, to)->Ok_0), to)
            == spec_dispatch_data(info, to),
{
    let d = spec_dispatch_data(info, to)->Ok_0;
    let e = spec_encode_info(d);
    lemma_dispatch_kind(info, to);
    lemma_dispatch_raw(info, to);
    lemma_dispatch_raw(e, to);
    match d {
        AprsDataView::Capabilities(raw) => {
            assert(after_dti(e) =~= raw);
        },
        AprsDataView::Nmea(raw) => {
            assert(after_dti(e) =~= raw);
        },
        AprsDataView::UserDefined { data, .. } => {
            assert(after_dti(after_dti(after_dti(e))) =~= data);
        },
        _ => {},
    }
}

proof fn lemma_data_case_unknown(info: Seq<u8>, to: CallsignView)
    requires
        spec_dispatch_data(info, to) is Ok,
        spec_dispatch_data(info, to)->Ok_0 is Unknown,
        data_encodable(spec_dispatch_data(info, to)->Ok_0),
        data_covered(spec_dispatch_data(info, to)->Ok_0, to),
    ensures
        spec_dispatch_data(spec_encode_info(spec_dispatch_data(info, to)->Ok_0), to)
            == spec_dispatch_data(info, to),
{
    let d = spec_dispatch_data(info, to)->Ok_0;
    let e = spec_encode_info(d);
    lemma_dispatch_kind(info, to);
    lemma_dispatch_unknown(info, to);
    lemma_dispatch_unknown(e, to);
}

proof fn lemma_data_case_mic_e(info: Seq<u8>, to: CallsignView)
    requires
        spec_dispatch_data(info, to) is Ok,
        spec_dispatch_data(info, to)->Ok_0 is MicE,
        data_encodable(spec_dispatch_data(info, to)->Ok_0),
        data_covered(spec_dispatch_data(info, to)->Ok_0, to),
    ensures
        spec_dispatch_data(spec_encode_info(spec_dispatch_data(info, to)->Ok_0), to)
            == spec_dispatch_data(info, to),
{
    let d = spec_dispatch_data(info, to)->Ok_0;
    let e = spec_encode_info(d);
    lemma_dispatch_kind(info, to);
    lemma_dispatch_mic_e(info, to);
    lemma_mic_e_round_trip(info, to);
    lemma_dispatch_mic_e(e, to);
}

/// The content that an information field decodes to is written back into an
/// information field that decodes to the same content.
pub proof fn lemma_data_round_trip(info: Seq<u8>, to: CallsignView)
    requires
        spec_dispatch_data(info, to) is Ok,
        data_encodable(spec_dispatch_data(info, to)->Ok_0),
        data_covered(spec_dispatch_data(info, to)->Ok_0, to),
    ensures
        spec_dispatch_data(spec_encode_info(spec_dispatch_data(info, to)->Ok_0), to)
            == spec_dispatch_data(info, to),
    decreases info.len(), 0int,
{
    let d = spec_dispatch_data(info, to)->Ok_0;
    match d {
        AprsDataView::Position(_) => lemma_data_case_position(info, to),
        AprsDataView::Object(_) => lemma_data_case_object(info, to),
        AprsDataView::Item(_) => lemma_data_case_item(info, to),
        AprsDataView::Weather(_) => lemma_data_case_weather(info, to),
        AprsDataView::Telemetry(_) => lemma_data_case_telemetry(info, to),
        AprsDataView::Query(_) => lemma_data_case_query(info, to),
        AprsDataView::Message(_) => lemma_data_case_message(info, to),
        AprsDataView::Status(_) => lemma_data_case_status(info, to),
        AprsDataView::GridLocator(_) => lemma_data_case_grid(info, to),
        AprsDataView::Capabilities(_) => lemma_data_case_raw(info, to),
        AprsDataView::Nmea(_) => lemma_data_case_raw(info, to),
        AprsDataView::UserDefined { .. } => lemma_data_case_raw(info, to),
        AprsDataView::Unknown { .. } => lemma_data_case_unknown(info, to),
        AprsDataView::MicE(_) => lemma_data_case_mic_e(info, to),
        AprsDataView::ThirdParty(p) => {
            lemma_dispatch_kind(info, to);
            let e = spec_encode_info(d);
            lemma_dispatch_third_party(info, to);
            let inner = after_dti(info);
            assert(after_dti(e) =~= spec_encode_textual(*p));
            lemma_textual_round_trip(inner);
            lemma_dispatch_third_party(e, to);
        },
        _ => {},
    }
}

/// What a textual packet's fields decode to, when they decode.
proof fn lemma_fields_ok(from_b: Seq<u8>, to_b: Seq<u8>, via_b: Seq<u8>, info: Seq<u8>)
    requires
        spec_decode_fields(from_b, to_b, via_b, info) is Ok,
    ensures
        ({
            let p = spec_decode_fields(from_b, to_b, via_b, info)->Ok_0;
            &&& spec_decode_callsign(from_b) == Ok::<CallsignView, AprsErrorView>(p.from)
            &&& spec_decode_callsign(to_b) == Ok::<CallsignView, AprsErrorView>(p.to)
            &&& spec_parse_via(via_b) == Ok::<Seq<DigipeaterView>, AprsErrorView>(p.via)
            &&& spec_dispatch_data(info, p.to) == Ok::<AprsDataView, AprsErrorView>(p.data)
        }),
{
}

/// The fields of a packet whose callsigns and via path decode as given.
proof fn lemma_fields_value(p: AprsPacketView, from_b: Seq<u8>, to_b: Seq<u8>, via_b: Seq<u8>, info: Seq<u8>)
    requires
        spec_decode_callsign(from_b) == Ok::<CallsignView, AprsErrorView>(p.from),
        spec_decode_callsign(to_b) == Ok::<CallsignView, AprsErrorView>(p.to),
        spec_parse_via(via_b) == Ok::<Seq<DigipeaterView>, AprsErrorView>(p.via),
        spec_dispatch_data(info, p.to) == Ok::<AprsDataView, AprsErrorView>(p.data),
    ensures
        spec_decode_fields(from_b, to_b, via_b, info) == Ok::<AprsPacketView, AprsErrorView>(p),
{
}

/// Decoding the textual form of a decoded packet gives the packet back.
pub proof fn lemma_textual_round_trip(input: Seq<u8>)
    requires
        spec_decode_textual(input) is Ok,
        packet_covered(spec_decode_textual(input)->Ok_0),
    ensures
        spec_decode_textual(spec_encode_textual(spec_decode_textual(input)->Ok_0))
            == spec_decode_textual(input),
    decreases input.len(), 1int,
{
    let p = spec_decode_textual(input)->Ok_0;
    let colon = index_of(input, 58u8);
    lemma_index_of(input, 58u8);
    let header = input.subrange(0, colon);
    let info = input.subrange(colon + 1, input.len() as int);
    let arrow = index_of(header, 62u8);
    lemma_index_of(header, 62u8);
    let from_b = header.subrange(0, arrow);
    let dv = header.subrange(arrow + 1, header.len() as int);
    let comma = index_of(dv, 44u8);
    lemma_index_of(dv, 44u8);
    let to_b = if comma < 0 {
        dv
    } else {
        dv.subrange(0, comma)
    };
    let via_b = if comma < 0 {
        Seq::empty()
    } else {
        dv.subrange(comma + 1, dv.len() as int)
    };
    assert(spec_decode_textual(input) == spec_decode_fields(from_b, to_b, via_b, info));
    lemma_fields_ok(from_b, to_b, via_b, info);
    lemma_decode_callsign_wf(from_b);
    lemma_decode_callsign_wf(to_b);
    lemma_parse_via_wf(via_b);
    lemma_data_round_trip(info, p.to);
    let e = spec_encode_info(p.data);
    let vb = lemma_header_round_trip(p, e);
    lemma_fields_value(p, spec_encode_callsign(p.from), spec_encode_callsign(p.to), vb, e);
}

/// A textual packet whose source and destination hold none of the header's
/// delimiters, and whose via text is empty or follows a comma, splits into
/// those parts.
proof fn lemma_header_split(ef: Seq<u8>, et: Seq<u8>, ev: Seq<u8>, vb: Seq<u8>, info: Seq<u8>)
    requires
        lacks(ef, 58u8),
        lacks(ef, 62u8),
        lacks(ef, 35u8),
        lacks(et, 58u8),
        lacks(et, 44u8),
        lacks(ev, 58u8),
        (ev.len() == 0 && vb.len() == 0) || ev == seq![44u8] + vb,
    ensures
        spec_decode_textual(ef + seq![62u8] + et + ev + seq![58u8] + info) == spec_decode_fields(
            ef,
            et,
            vb,
            info,
        ),
{
    let dv = et + ev;
    let header = ef + seq![62u8] + dv;
    let input = header + seq![58u8] + info;
    assert forall|i: int| 0 <= i < header.len() implies #[trigger] input[i] != 58u8 by {
        if i < ef.len() {
            assert(input[i] == ef[i]);
        } else if i == ef.len() {
        } else if i < ef.len() + 1 + et.len() {
            assert(input[i] == et[i - ef.len() - 1]);
        } else {
            assert(input[i] == ev[i - ef.len() - 1 - et.len()]);
        }
    }
    assert(input[header.len() as int] == 58u8);
    lemma_index_of_at(input, 58u8, header.len() as int);
    assert(input.subrange(0, header.len() as int) =~= header);
    assert(input.subrange(header.len() as int + 1, input.len() as int) =~= info);
    assert forall|i: int| 0 <= i < ef.len() implies #[trigger] header[i] != 62u8 by {
        assert(header[i] == ef[i]);
    }
    lemma_index_of_at(header, 62u8, ef.len() as int);
    assert(header.subrange(0, ef.len() as int) =~= ef);
    assert(header.subrange(ef.len() as int + 1, header.len() as int) =~= dv);
    if ev.len() > 0 {
        assert forall|i: int| 0 <= i < et.len() implies #[trigger] dv[i] != 44u8 by {
            assert(dv[i] == et[i]);
        }
        assert(dv[et.len() as int] == 44u8);
        lemma_index_of_at(dv, 44u8, et.len() as int);
        assert(dv.subrange(0, et.len() as int) =~= et);
        assert(dv.subrange(et.len() as int + 1, dv.len() as int) =~= vb);
    } else {
        assert(dv =~= et);
        lemma_index_of(dv, 44u8);
    }
    assert(ef + seq![62u8] + et + ev + seq![58u8] + info =~= input);
}

/// The textual header of a well-formed packet splits back into the text of
/// its source, its destination and its via path, whatever information field
/// follows; the via text parses back to the via path.
proof fn lemma_header_round_trip(p: AprsPacketView, info: Seq<u8>) -> (vb: Seq<u8>)
    requires
        crate::callsign::callsign_wf(p.from),
        crate::callsign::callsign_wf(p.to),
        via_wf(p.via),
        via_q_exact(p.via),
    ensures
        spec_decode_textual(
            spec_encode_callsign(p.from) + seq![62u8] + spec_encode_callsign(p.to)
                + spec_encode_via(p.via) + seq![58u8] + info,
        ) == spec_decode_fields(spec_encode_callsign(p.from), spec_encode_callsign(p.to), vb, info),
        spec_parse_via(vb) == Ok::<Seq<DigipeaterView>, AprsErrorView>(p.via),
        spec_decode_callsign(spec_encode_callsign(p.from)) == Ok::<CallsignView, AprsErrorView>(p.from),
        spec_decode_callsign(spec_encode_callsign(p.to)) == Ok::<CallsignView, AprsErrorView>(p.to),
{
    let ef = spec_encode_callsign(p.from);
    let et = spec_encode_callsign(p.to);
    let ev = spec_encode_via(p.via);
    lemma_callsign_piece(p.from);
    lemma_callsign_piece(p.to);
    lemma_callsign_round_trip(p.from);
    lemma_callsign_round_trip(p.to);
    let vb = if p.via.len() > 0 {
        join(via_pieces(p.via), 44u8)
    } else {
        Seq::empty()
    };
    if p.via.len() > 0 {
        lemma_via_round_trip(p.via);
        lemma_encode_via_join(p.via);
        let ps = via_pieces(p.via);
        assert forall|i: int| 0 <= i < ps.len() implies lacks(#[trigger] ps[i], 58u8) by {
            assert(header_piece(ps[i]));
        }
        lemma_join_lacks(ps, 44u8, 58u8);
        assert forall|i: int| 0 <= i < ev.len() implies #[trigger] ev[i] != 58u8 by {
            if i > 0 {
                assert(ev[i] == vb[i - 1]);
            }
        }
    } else {
        assert(ev =~= Seq::<u8>::empty());
        assert(p.via =~= Seq::<DigipeaterView>::empty());
    }
    lemma_header_split(ef, et, ev, vb, info);
    vb
}

/// The callsign that stands for a via element in an AX.25 address field.
pub open spec fn digi_call(d: DigipeaterView) -> CallsignView {
    match d {
        DigipeaterView::Callsign(c, _) => c,
        DigipeaterView::QConstruct(_, gw) => gw,
    }
}

/// A via path that an AX.25 frame carries back unchanged: callsign elements
/// that address fields hold.
pub open spec fn ax25_via_ok(vs: Seq<DigipeaterView>) -> bool {
    forall|i: int|
        0 <= i < vs.len() ==> (#[trigger] vs[i] matches DigipeaterView::Callsign(c, _) && ax25_callsign(
            c,
        ))
}

proof fn lemma_encode_ax25_via_front(vs: Seq<DigipeaterView>)
    requires
        vs.len() > 0,
    ensures
        spec_encode_ax25_via(vs) == spec_encode_digi_ax25(vs[0], false)
            + spec_encode_ax25_via(vs.drop_first()),
    decreases vs.len(),
{
    if vs.len() == 1 {
        assert(vs.drop_last() =~= Seq::<DigipeaterView>::empty());
        assert(vs.drop_first() =~= Seq::<DigipeaterView>::empty());
        assert(spec_encode_ax25_via(Seq::<DigipeaterView>::empty()) =~= Seq::<u8>::empty());
        assert(vs.last() == vs[0]);
        assert(spec_encode_ax25_via(vs) =~= spec_encode_digi_ax25(vs[0], false)
            + spec_encode_ax25_via(vs.drop_first()));
    } else {
        lemma_encode_ax25_via_front(vs.drop_last());
        assert(vs.drop_last().drop_first() =~= vs.drop_first().drop_last());
        assert(vs.drop_last()[0] == vs[0]);
        assert(vs.drop_first().last() == vs.last());
        assert(spec_encode_ax25_via(vs) =~= spec_encode_digi_ax25(vs[0], false)
            + spec_encode_ax25_via(vs.drop_first()));
    }
}

proof fn lemma_ax25_via_fields_front(vs: Seq<DigipeaterView>)
    requires
        vs.len() > 0,
    ensures
        vs.len() == 1 ==> spec_ax25_via_fields(vs) == spec_encode_digi_ax25(vs[0], true),
        vs.len() > 1 ==> spec_ax25_via_fields(vs) == spec_encode_digi_ax25(vs[0], false)
            + spec_ax25_via_fields(vs.drop_first()),
        spec_ax25_via_fields(vs).len() == 7 * vs.len(),
    decreases vs.len(),
{
    if vs.len() == 1 {
        assert(vs.drop_last() =~= Seq::<DigipeaterView>::empty());
        assert(spec_encode_ax25_via(Seq::<DigipeaterView>::empty()) =~= Seq::<u8>::empty());
        assert(vs.last() == vs[0]);
        assert(spec_ax25_via_fields(vs) =~= spec_encode_digi_ax25(vs[0], true));
    } else {
        lemma_encode_ax25_via_front(vs.drop_last());
        lemma_ax25_via_fields_front(vs.drop_first());
        assert(vs.drop_last().drop_first() =~= vs.drop_first().drop_last());
        assert(vs.drop_last()[0] == vs[0]);
        assert(vs.drop_first().last() == vs.last());
        assert(spec_ax25_via_fields(vs) =~= spec_encode_digi_ax25(vs[0], false)
            + spec_ax25_via_fields(vs.drop_first()));
    }
}

/// The AX.25 address fields of a via path decode back to the path.
proof fn lemma_ax25_via_decode(frame: Seq<u8>, pos: int, vs: Seq<DigipeaterView>)
    requires
        vs.len() > 0,
        ax25_via_ok(vs),
        0 <= pos,
        pos + 7 * vs.len() < frame.len(),
        frame.subrange(pos, pos + 7 * vs.len()) == spec_ax25_via_fields(vs),
    ensures
        spec_ax25_via(frame, pos) == Ok::<(Seq<DigipeaterView>, int), AprsErrorView>(
            (vs, pos + 7 * vs.len()),
        ),
    decreases vs.len(),
{
    lemma_ax25_via_fields_front(vs);
    let d = vs[0];
    let c = digi_call(d);
    assert(d matches DigipeaterView::Callsign(c0, _) && ax25_callsign(c0));
    let heard = d->Callsign_1;
    let last = vs.len() == 1;
    crate::callsign::lemma_address_ax25_round_trip(c, last, heard);
    let f = spec_encode_digi_ax25(d, last);
    assert(frame.subrange(pos, pos + 7) =~= f) by {
        assert forall|i: int| 0 <= i < 7 implies frame.subrange(pos, pos + 7)[i] == f[i] by {
            assert(frame.subrange(pos, pos + 7)[i] == frame.subrange(pos, pos + 7 * vs.len())[i]);
        }
    }
    assert(frame[pos + 6] == f[6]);
    assert(d == DigipeaterView::Callsign(c, frame[pos + 6] >= 128));
    if !last {
        let rest = vs.drop_first();
        assert forall|i: int| 0 <= i < rest.len() implies (#[trigger] rest[i] matches DigipeaterView::Callsign(
            c1,
            _,
        ) && ax25_callsign(c1)) by {
            assert(rest[i] == vs[i + 1]);
        }
        assert(frame.subrange(pos + 7, pos + 7 + 7 * rest.len()) =~= spec_ax25_via_fields(rest)) by {
            assert forall|i: int| 0 <= i < 7 * rest.len() implies frame.subrange(
                pos + 7,
                pos + 7 + 7 * rest.len(),
            )[i] == spec_ax25_via_fields(rest)[i] by {
                assert(frame.subrange(pos + 7, pos + 7 + 7 * rest.len())[i] == frame.subrange(
                    pos,
                    pos + 7 * vs.len(),
                )[i + 7]);
            }
        }
        lemma_ax25_via_decode(frame, pos + 7, rest);
        assert(vs =~= seq![d] + rest);
    } else {
        assert(vs =~= seq![d]);
    }
}

/// What an AX.25 frame that decodes is made of.
proof fn lemma_ax25_parts(input: Seq<u8>)
    requires
        spec_decode_ax25(input) is Ok,
    ensures
        ({
            let p = spec_decode_ax25(input)->Ok_0;
            exists|pos: int|
                #![trigger input.subrange(pos + 2, input.len() as int)]
                0 <= pos && pos + 2 <= input.len() && spec_dispatch_data(
                    input.subrange(pos + 2, input.len() as int),
                    p.to,
                ) == Ok::<AprsDataView, AprsErrorView>(p.data)
        }),
        ax25_callsign(spec_decode_ax25(input)->Ok_0.from),
        ax25_callsign(spec_decode_ax25(input)->Ok_0.to),
        forall|i: int|
            0 <= i < spec_decode_ax25(input)->Ok_0.via.len() ==> (
            #[trigger] spec_decode_ax25(input)->Ok_0.via[i] matches DigipeaterView::Callsign(c, _)
                && ax25_callsign(c)),
{
    reveal(spec_ax25_tail);
    let p = spec_decode_ax25(input)->Ok_0;
    lemma_decode_callsign_ax25_wf(input.subrange(0, 7));
    lemma_decode_callsign_ax25_wf(input.subrange(7, 14));
    let src_eoa = spec_decode_callsign_ax25(input.subrange(7, 14))->Ok_0.1;
    if !src_eoa {
        lemma_ax25_via_wf(input, 14);
    }
    let vr = if src_eoa {
        Ok((Seq::<DigipeaterView>::empty(), 14int))
    } else {
        spec_ax25_via(input, 14)
    };
    let pos = vr->Ok_0.1;
    assert(0 <= pos && pos + 2 <= input.len());
    assert(spec_dispatch_data(input.subrange(pos + 2, input.len() as int), p.to) == Ok::<
        AprsDataView,
        AprsErrorView,
    >(p.data));
}

/// The via path read from AX.25 address fields holds callsigns that such
/// fields hold.
proof fn lemma_ax25_via_wf(input: Seq<u8>, pos: int)
    requires
        spec_ax25_via(input, pos) is Ok,
    ensures
        forall|i: int|
            0 <= i < spec_ax25_via(input, pos)->Ok_0.0.len() ==> (
            #[trigger] spec_ax25_via(input, pos)->Ok_0.0[i] matches DigipeaterView::Callsign(c, _)
                && ax25_callsign(c)),
        spec_ax25_via(input, pos)->Ok_0.1 > pos,
    decreases input.len() - pos,
{
    lemma_decode_callsign_ax25_wf(input.subrange(pos, pos + 7));
    let (c, eoa) = spec_decode_callsign_ax25(input.subrange(pos, pos + 7))->Ok_0;
    if !eoa {
        lemma_ax25_via_wf(input, pos + 7);
        let rest = spec_ax25_via(input, pos + 7)->Ok_0.0;
        let all = spec_ax25_via(input, pos)->Ok_0.0;
        assert forall|i: int| 0 <= i < all.len() implies (#[trigger] all[i] matches DigipeaterView::Callsign(
            c1,
            _,
        ) && ax25_callsign(c1)) by {
            if i > 0 {
                assert(all[i] == rest[i - 1]);
            }
        }
    }
}

/// The AX.25 frame written for a packet whose addresses such a frame holds,
/// and whose content is written into an information field that decodes back
/// to it, decodes to the packet.
proof fn lemma_ax25_frame(p: AprsPacketView)
    requires
        ax25_callsign(p.from),
        ax25_callsign(p.to),
        ax25_via_ok(p.via),
        spec_dispatch_data(spec_encode_info(p.data), p.to) == Ok::<AprsDataView, AprsErrorView>(
            p.data,
        ),
    ensures
        spec_decode_ax25(spec_encode_ax25(p)) == Ok::<AprsPacketView, AprsErrorView>(p),
{
    let info = spec_encode_info(p.data);
    let n = p.via.len();
    let et = spec_encode_callsign_ax25(p.to, false);
    let ef = spec_encode_callsign_ax25(p.from, n == 0);
    let vf = spec_ax25_via_fields(p.via);
    let frame = spec_encode_ax25(p);
    crate::callsign::lemma_callsign_ax25_round_trip(p.to, false);
    crate::callsign::lemma_callsign_ax25_round_trip(p.from, n == 0);
    assert(frame =~= et + ef + vf + seq![0x03u8, 0xF0u8] + info);
    assert(frame.subrange(0, 7) =~= et);
    assert(frame.subrange(7, 14) =~= ef);
    let pos: int = 14 + 7 * n as int;
    if n > 0 {
        lemma_ax25_via_fields_front(p.via);
        assert(frame.subrange(14, pos) =~= vf);
        lemma_ax25_via_decode(frame, 14, p.via);
    } else {
        assert(vf =~= Seq::<u8>::empty());
        assert(p.via =~= Seq::<DigipeaterView>::empty());
    }
    assert(frame[pos] == 0x03u8);
    assert(frame[pos + 1] == 0xF0u8);
    assert(frame.subrange(pos + 2, frame.len() as int) =~= info);
    reveal(spec_ax25_tail);
}

/// Decoding the AX.25 frame of a decoded packet gives the packet back.
pub proof fn lemma_ax25_round_trip(input: Seq<u8>)
    requires
        spec_decode_ax25(input) is Ok,
        data_encodable(spec_decode_ax25(input)->Ok_0.data),
        data_covered(spec_decode_ax25(input)->Ok_0.data, spec_decode_ax25(input)->Ok_0.to),
    ensures
        spec_decode_ax25(spec_encode_ax25(spec_decode_ax25(input)->Ok_0)) == spec_decode_ax25(input),
{
    let p = spec_decode_ax25(input)->Ok_0;
    lemma_ax25_parts(input);
    let pos_in = choose|pos: int|
        #![trigger input.subrange(pos + 2, input.len() as int)]
        0 <= pos && pos + 2 <= input.len() && spec_dispatch_data(
            input.subrange(pos + 2, input.len() as int),
            p.to,
        ) == Ok::<AprsDataView, AprsErrorView>(p.data);
    let info_in = input.subrange(pos_in + 2, input.len() as int);
    lemma_data_round_trip(info_in, p.to);
    assert forall|i: int| 0 <= i < p.via.len() implies (#[trigger] p.via[i] matches DigipeaterView::Callsign(
        c,
        _,
    ) && ax25_callsign(c)) by {
        assert(p.via[i] matches DigipeaterView::Callsign(c, _) && ax25_callsign(c));
    }
    lemma_ax25_frame(p);
}

/// Text to AX.25 and back: a packet decoded from text, whose source,
/// destination and via callsigns an AX.25 address field holds (at most six
/// characters, no SSID or a numeric one), with no Q-construct in its via path
/// and content that the round trip covers, is given back by decoding its
/// AX.25 frame; its text is then written the same.
pub proof fn lemma_textual_to_ax25(x: Seq<u8>)
    requires
        spec_decode_textual(x) is Ok,
        ax25_callsign(spec_decode_textual(x)->Ok_0.from),
        ax25_callsign(spec_decode_textual(x)->Ok_0.to),
        ax25_via_ok(spec_decode_textual(x)->Ok_0.via),
        data_encodable(spec_decode_textual(x)->Ok_0.data),
        data_covered(spec_decode_textual(x)->Ok_0.data, spec_decode_textual(x)->Ok_0.to),
    ensures
        spec_decode_ax25(spec_encode_ax25(spec_decode_textual(x)->Ok_0)) == spec_decode_textual(x),
        spec_encode_textual(spec_decode_ax25(spec_encode_ax25(spec_decode_textual(x)->Ok_0))->Ok_0)
            == spec_encode_textual(spec_decode_textual(x)->Ok_0),
{
    let p = spec_decode_textual(x)->Ok_0;
    lemma_index_of(x, 58u8);
    let info = crate::packet::info_of(x);
    assert(spec_dispatch_data(info, p.to) == Ok::<AprsDataView, AprsErrorView>(p.data));
    lemma_data_round_trip(info, p.to);
    lemma_ax25_frame(p);
}


/// A packet in its textual written form is written again byte for byte:
/// encoding what the textual form of a decoded packet decodes to gives the
/// same bytes.
pub proof fn lemma_textual_canonical(input: Seq<u8>)
    requires
        spec_decode_textual(input) is Ok,
        packet_covered(spec_decode_textual(input)->Ok_0),
    ensures
        ({
            let e = spec_encode_textual(spec_decode_textual(input)->Ok_0);
            spec_decode_textual(e) matches Ok(q) && spec_encode_textual(q) == e
        }),
{
    lemma_textual_round_trip(input);
}

/// A packet in its AX.25 written form is written again byte for byte.
pub proof fn lemma_ax25_canonical(input: Seq<u8>)
    requires
        spec_decode_ax25(input) is Ok,
        data_encodable(spec_decode_ax25(input)->Ok_0.data),
        data_covered(spec_decode_ax25(input)->Ok_0.data, spec_decode_ax25(input)->Ok_0.to),
    ensures
        ({
            let e = spec_encode_ax25(spec_decode_ax25(input)->Ok_0);
            spec_decode_ax25(e) matches Ok(q) && spec_encode_ax25(q) == e
        }),
{
    lemma_ax25_round_trip(input);
}


/// A trailing CR LF, as APRS-IS lines carry, is tolerated: a line that
/// decodes still decodes with CR LF appended, with the same source,
/// destination and via path, its content read from the information field
/// with the CR LF.
pub proof fn lemma_crlf_tolerated(x: Seq<u8>)
    requires
        spec_decode_textual(x) is Ok,
    ensures
        ({
            let p = spec_decode_textual(x)->Ok_0;
            let y = x + seq![13u8, 10u8];
            &&& spec_decode_textual(y) is Ok
            &&& spec_decode_textual(y)->Ok_0.from == p.from
            &&& spec_decode_textual(y)->Ok_0.to == p.to
            &&& spec_decode_textual(y)->Ok_0.via == p.via
            &&& spec_decode_textual(y)->Ok_0.data == spec_dispatch_data(
                crate::packet::info_of(x) + seq![13u8, 10u8],
                p.to,
            )->Ok_0
        }),
{
    crate::packet::lemma_textual_extend(x, seq![13u8, 10u8]);
}

} // verus!
