//! Whole packets: the `FROM>TO,VIA:INFO` header in textual (APRS-IS) and
//! AX.25 form, and the information field dispatched by its first byte.
use crate::callsign::{
    spec_decode_callsign, spec_decode_callsign_ax25, spec_encode_callsign,
    spec_encode_address_ax25, spec_encode_callsign_ax25, Callsign, CallsignView,
};
use crate::capabilities::AprsCapabilities;
use crate::digipeater::{
    parse_via, spec_encode_digipeater, spec_parse_via, Digipeater, DigipeaterView,
};
use crate::error::{AprsError, AprsErrorView};
use crate::grid::{spec_encode_grid, spec_parse_grid, AprsGridLocator, AprsGridLocatorView};
use crate::item::{spec_encode_item, spec_parse_item, AprsItem, AprsItemView};
use crate::location::position_cs_encodable;
use crate::message::{spec_encode_message, spec_parse_message, AprsMessage, AprsMessageView};
use crate::mic_e::{mic_e_encodable, spec_encode_mic_e, spec_parse_mic_e, AprsMicE, AprsMicEView};
use crate::nmea::AprsNmea;
use crate::object::{
    position_ext_encodable, spec_encode_object, spec_parse_object, AprsObject, AprsObjectView,
};
use crate::position::{
    spec_encode_position_report, spec_parse_position_report, AprsPosition, AprsPositionView,
};
use crate::query::{spec_encode_query, spec_parse_query, AprsQuery, AprsQueryView};
use crate::status::{after_dti, spec_encode_status, spec_parse_status, AprsStatus, AprsStatusView};
use crate::telemetry::{
    spec_encode_telemetry, spec_parse_telemetry, AprsTelemetry, AprsTelemetryView,
};
use crate::user_defined::AprsUserDefined;
use crate::util::{copy_from, extend, find_byte, index_of, lemma_index_of};
use crate::weather::{
    spec_encode_positionless_weather, spec_parse_positionless_weather, AprsPositionlessWeather,
    AprsPositionlessWeatherView,
};
use vstd::prelude::*;

verus! {

/// A fully decoded APRS packet.
#[derive(Debug)]
pub struct AprsPacket {
    /// The source station (transmitter).
    pub from: Callsign,
    /// The destination callsign (AX.25 destination / APRS path destination).
    pub to: Callsign,
    /// The digipeater path.
    pub via: Vec<Digipeater>,
    /// The parsed packet content, discriminated by Data Type Indicator.
    pub data: AprsData,
}

/// A third-party APRS packet: a complete APRS packet forwarded from one
/// network to another (e.g. RF→APRS-IS gateway).
///
/// DTI: `}`
///
/// The payload after `}` is a full textual APRS packet that is recursively
/// decoded. Decode failures return an error rather than silently ignoring them.
#[derive(Debug)]
pub struct AprsThirdParty {
    /// The forwarded inner packet, recursively decoded.
    pub inner: Box<AprsPacket>,
}

/// The content of an APRS packet, dispatched by Data Type Indicator (DTI).
///
/// The DTI is the first byte of the AX.25 information field.
#[derive(Debug)]
#[non_exhaustive]
pub enum AprsData {
    /// Position report. DTI: `!` `=` `/` `@`
    Position(AprsPosition),
    /// Message, bulletin, ACK/REJ, or telemetry metadata. DTI: `:`
    Message(AprsMessage),
    /// Status report. DTI: `>`
    Status(AprsStatus),
    /// MIC-E compressed position. DTI: `` ` `` `'` `\x1C` `\x1D`
    MicE(AprsMicE),
    /// Object report. DTI: `;`
    Object(AprsObject),
    /// Item report. DTI: `)`
    Item(AprsItem),
    /// Positionless weather report. DTI: `_`
    Weather(AprsPositionlessWeather),
    /// Telemetry data packet. DTI: `T` (followed by `#`)
    Telemetry(AprsTelemetry),
    /// Station capabilities. DTI: `<`
    Capabilities(AprsCapabilities),
    /// General query. DTI: `?`
    Query(AprsQuery),
    /// Maidenhead grid locator. DTI: `[`
    GridLocator(AprsGridLocator),
    /// Raw NMEA sentence. DTI: `$`
    Nmea(AprsNmea),
    /// Third-party forwarded packet. DTI: `}`
    ThirdParty(AprsThirdParty),
    /// User-defined / experimental packet. DTI: `{`
    UserDefined(AprsUserDefined),
    /// Packet type not yet implemented or not recognized.
    /// Preserves the DTI byte and the raw information field for caller inspection.
    Unknown { dti: u8, data: Vec<u8> },
}

fn clone_via(v: &Vec<Digipeater>) -> (r: Vec<Digipeater>)
    ensures
        r@.map_values(|d: Digipeater| d@) == v@.map_values(|d: Digipeater| d@),
{
    let mut r: Vec<Digipeater> = Vec::new();
    let mut i: usize = 0;
    while i < v.len()
        invariant
            i <= v@.len(),
            r@.len() == i,
            forall|j: int| 0 <= j < i ==> (#[trigger] r@[j])@ == v@[j]@,
        decreases v.len() - i,
    {
        r.push(v[i].clone());
        i = i + 1;
    }
    assert(r@.map_values(|d: Digipeater| d@) =~= v@.map_values(|d: Digipeater| d@));
    r
}

fn clone_packet(p: &AprsPacket) -> (r: AprsPacket)
    ensures
        r@ == p@,
    decreases p,
{
    AprsPacket {
        from: p.from.clone(),
        to: p.to.clone(),
        via: clone_via(&p.via),
        data: clone_data(&p.data),
    }
}

fn clone_data(d: &AprsData) -> (r: AprsData)
    ensures
        r@ == d@,
    decreases d,
{
    match d {
        AprsData::Position(x) => AprsData::Position(x.clone()),
        AprsData::Message(x) => AprsData::Message(x.clone()),
        AprsData::Status(x) => AprsData::Status(x.clone()),
        AprsData::MicE(x) => AprsData::MicE(x.clone()),
        AprsData::Object(x) => AprsData::Object(x.clone()),
        AprsData::Item(x) => AprsData::Item(x.clone()),
        AprsData::Weather(x) => AprsData::Weather(x.clone()),
        AprsData::Telemetry(x) => AprsData::Telemetry(x.clone()),
        AprsData::Capabilities(x) => AprsData::Capabilities(x.clone()),
        AprsData::Query(x) => AprsData::Query(x.clone()),
        AprsData::GridLocator(x) => AprsData::GridLocator(x.clone()),
        AprsData::Nmea(x) => AprsData::Nmea(x.clone()),
        AprsData::ThirdParty(tp) => AprsData::ThirdParty(
            AprsThirdParty { inner: Box::new(clone_packet(&tp.inner)) },
        ),
        AprsData::UserDefined(x) => AprsData::UserDefined(x.clone()),
        AprsData::Unknown { dti, data } => AprsData::Unknown { dti: *dti, data: data.clone() },
    }
}

impl Clone for AprsPacket {
    fn clone(&self) -> (r: Self)
        ensures
            r@ == self@,
    {
        clone_packet(self)
    }
}

impl Clone for AprsThirdParty {
    fn clone(&self) -> (r: Self)
        ensures
            r@ == self@,
    {
        AprsThirdParty { inner: Box::new(clone_packet(&self.inner)) }
    }
}

impl Clone for AprsData {
    fn clone(&self) -> (r: Self)
        ensures
            r@ == self@,
    {
        clone_data(self)
    }
}

/// Mathematical model of [`AprsData`].
pub enum AprsDataView {
    Position(AprsPositionView),
    Message(AprsMessageView),
    Status(AprsStatusView),
    MicE(AprsMicEView),
    Object(AprsObjectView),
    Item(AprsItemView),
    Weather(AprsPositionlessWeatherView),
    Telemetry(AprsTelemetryView),
    Capabilities(Seq<u8>),
    Query(AprsQueryView),
    GridLocator(AprsGridLocatorView),
    Nmea(Seq<u8>),
    ThirdParty(Box<AprsPacketView>),
    UserDefined { user_id: u8, packet_type: u8, data: Seq<u8> },
    Unknown { dti: u8, data: Seq<u8> },
}

/// Mathematical model of [`AprsPacket`].
pub struct AprsPacketView {
    pub from: CallsignView,
    pub to: CallsignView,
    pub via: Seq<DigipeaterView>,
    pub data: AprsDataView,
}

/// The model of a packet.
pub open spec fn packet_view(p: AprsPacket) -> AprsPacketView
    decreases p,
{
    AprsPacketView {
        from: p.from@,
        to: p.to@,
        via: p.via@.map_values(|d: Digipeater| d@),
        data: data_view(p.data),
    }
}

/// The model of a packet's content.
pub open spec fn data_view(d: AprsData) -> AprsDataView
    decreases d,
{
    match d {
        AprsData::Position(x) => AprsDataView::Position(x@),
        AprsData::Message(x) => AprsDataView::Message(x@),
        AprsData::Status(x) => AprsDataView::Status(x@),
        AprsData::MicE(x) => AprsDataView::MicE(x@),
        AprsData::Object(x) => AprsDataView::Object(x@),
        AprsData::Item(x) => AprsDataView::Item(x@),
        AprsData::Weather(x) => AprsDataView::Weather(x@),
        AprsData::Telemetry(x) => AprsDataView::Telemetry(x@),
        AprsData::Capabilities(x) => AprsDataView::Capabilities(x.raw@),
        AprsData::Query(x) => AprsDataView::Query(x@),
        AprsData::GridLocator(x) => AprsDataView::GridLocator(x@),
        AprsData::Nmea(x) => AprsDataView::Nmea(x.data@),
        AprsData::ThirdParty(x) => AprsDataView::ThirdParty(Box::new(packet_view(*x.inner))),
        AprsData::UserDefined(x) => AprsDataView::UserDefined {
            user_id: x.user_id,
            packet_type: x.packet_type,
            data: x.data@,
        },
        AprsData::Unknown { dti, data } => AprsDataView::Unknown { dti, data: data@ },
    }
}

impl View for AprsPacket {
    type V = AprsPacketView;

    open spec fn view(&self) -> AprsPacketView {
        packet_view(*self)
    }
}

impl View for AprsData {
    type V = AprsDataView;

    open spec fn view(&self) -> AprsDataView {
        data_view(*self)
    }
}

impl View for AprsThirdParty {
    type V = AprsPacketView;

    open spec fn view(&self) -> AprsPacketView {
        packet_view(*self.inner)
    }
}

/// `Ok(f(x))` for `Ok(x)`, the error otherwise.
pub open spec fn wrap<T>(r: Result<T, AprsErrorView>, f: spec_fn(T) -> AprsDataView) -> Result<
    AprsDataView,
    AprsErrorView,
> {
    match r {
        Ok(x) => Ok(f(x)),
        Err(e) => Err(e),
    }
}

/// The content of an information field, chosen by its first byte; MIC-E
/// also reads the destination call `to`.
pub closed spec fn spec_dispatch_data(info: Seq<u8>, to: CallsignView) -> Result<
    AprsDataView,
    AprsErrorView,
>
    decreases info.len(), 0int,
{
    if info.len() == 0 {
        Ok(AprsDataView::Unknown { dti: 0, data: Seq::empty() })
    } else {
        let dti = info[0];
        if dti == 33u8 || dti == 61u8 || dti == 47u8 || dti == 64u8 {
            wrap(spec_parse_position_report(info), |x| AprsDataView::Position(x))
        } else if dti == 58u8 {
            wrap(spec_parse_message(info), |x| AprsDataView::Message(x))
        } else if dti == 62u8 {
            Ok(AprsDataView::Status(spec_parse_status(info)))
        } else if dti == 96u8 || dti == 39u8 || dti == 0x1Cu8 || dti == 0x1Du8 {
            wrap(spec_parse_mic_e(info, to), |x| AprsDataView::MicE(x))
        } else if dti == 59u8 {
            wrap(spec_parse_object(info), |x| AprsDataView::Object(x))
        } else if dti == 41u8 {
            wrap(spec_parse_item(info), |x| AprsDataView::Item(x))
        } else if dti == 95u8 {
            wrap(spec_parse_positionless_weather(info), |x| AprsDataView::Weather(x))
        } else if dti == 84u8 {
            wrap(spec_parse_telemetry(info), |x| AprsDataView::Telemetry(x))
        } else if dti == 60u8 {
            Ok(AprsDataView::Capabilities(after_dti(info)))
        } else if dti == 63u8 {
            Ok(AprsDataView::Query(spec_parse_query(info)))
        } else if dti == 91u8 {
            wrap(spec_parse_grid(info), |x| AprsDataView::GridLocator(x))
        } else if dti == 36u8 {
            Ok(AprsDataView::Nmea(after_dti(info)))
        } else if dti == 125u8 {
            match spec_decode_textual(after_dti(info)) {
                Ok(p) => Ok(AprsDataView::ThirdParty(Box::new(p))),
                Err(e) => Err(e),
            }
        } else if dti == 123u8 {
            Ok(
                AprsDataView::UserDefined {
                    user_id: if info.len() > 1 {
                        info[1]
                    } else {
                        0
                    },
                    packet_type: if info.len() > 2 {
                        info[2]
                    } else {
                        0
                    },
                    data: after_dti(after_dti(after_dti(info))),
                },
            )
        } else {
            Ok(AprsDataView::Unknown { dti, data: info })
        }
    }
}

/// An information field that starts with `>` is a status report.
pub proof fn lemma_dispatch_status(x: Seq<u8>, to: CallsignView)
    requires
        x.len() > 0,
        x[0] == 62u8,
    ensures
        spec_dispatch_data(x, to) == Ok::<AprsDataView, AprsErrorView>(
            AprsDataView::Status(spec_parse_status(x)),
        ),
{
}

/// An information field that starts with `:` is a message.
pub proof fn lemma_dispatch_message(x: Seq<u8>, to: CallsignView)
    requires
        x.len() > 0,
        x[0] == 58u8,
    ensures
        spec_dispatch_data(x, to) == wrap(spec_parse_message(x), |m| AprsDataView::Message(m)),
{
}

/// An information field that starts with `[` is a grid locator.
pub proof fn lemma_dispatch_grid(x: Seq<u8>, to: CallsignView)
    requires
        x.len() > 0,
        x[0] == 91u8,
    ensures
        spec_dispatch_data(x, to) == wrap(spec_parse_grid(x), |g| AprsDataView::GridLocator(g)),
{
}

/// Capabilities (`<`), NMEA (`$`) and user-defined (`{`) fields keep their
/// bytes.
pub proof fn lemma_dispatch_raw(x: Seq<u8>, to: CallsignView)
    requires
        x.len() > 0,
        x[0] == 60u8 || x[0] == 36u8 || x[0] == 123u8,
    ensures
        x[0] == 60u8 ==> spec_dispatch_data(x, to) == Ok::<AprsDataView, AprsErrorView>(
            AprsDataView::Capabilities(after_dti(x)),
        ),
        x[0] == 36u8 ==> spec_dispatch_data(x, to) == Ok::<AprsDataView, AprsErrorView>(
            AprsDataView::Nmea(after_dti(x)),
        ),
        x[0] == 123u8 ==> spec_dispatch_data(x, to) == Ok::<AprsDataView, AprsErrorView>(
            AprsDataView::UserDefined {
                user_id: if x.len() > 1 {
                    x[1]
                } else {
                    0
                },
                packet_type: if x.len() > 2 {
                    x[2]
                } else {
                    0
                },
                data: after_dti(after_dti(after_dti(x))),
            },
        ),
{
}

/// An information field that starts with `}` holds a whole textual packet.
pub proof fn lemma_dispatch_third_party(x: Seq<u8>, to: CallsignView)
    requires
        x.len() > 0,
        x[0] == 125u8,
    ensures
        spec_dispatch_data(x, to) == match spec_decode_textual(after_dti(x)) {
            Ok(p) => Ok(AprsDataView::ThirdParty(Box::new(p))),
            Err(e) => Err(e),
        },
{
}

/// An information field that starts with `!`, `=`, `/` or `@` is a position
/// report.
pub proof fn lemma_dispatch_position(x: Seq<u8>, to: CallsignView)
    requires
        x.len() > 0,
        x[0] == 33u8 || x[0] == 61u8 || x[0] == 47u8 || x[0] == 64u8,
    ensures
        spec_dispatch_data(x, to) == wrap(spec_parse_position_report(x), |p| AprsDataView::Position(p)),
{
}

/// An information field that starts with `;` is an object report.
pub proof fn lemma_dispatch_object(x: Seq<u8>, to: CallsignView)
    requires
        x.len() > 0,
        x[0] == 59u8,
    ensures
        spec_dispatch_data(x, to) == wrap(spec_parse_object(x), |o| AprsDataView::Object(o)),
{
}

/// An information field that starts with `)` is an item report.
pub proof fn lemma_dispatch_item(x: Seq<u8>, to: CallsignView)
    requires
        x.len() > 0,
        x[0] == 41u8,
    ensures
        spec_dispatch_data(x, to) == wrap(spec_parse_item(x), |i| AprsDataView::Item(i)),
{
}

/// An information field that starts with `T` is a telemetry report.
pub proof fn lemma_dispatch_telemetry(x: Seq<u8>, to: CallsignView)
    requires
        x.len() > 0,
        x[0] == 84u8,
    ensures
        spec_dispatch_data(x, to) == wrap(spec_parse_telemetry(x), |t| AprsDataView::Telemetry(t)),
{
}

/// An information field that starts with `?` is a query.
pub proof fn lemma_dispatch_query(x: Seq<u8>, to: CallsignView)
    requires
        x.len() > 0,
        x[0] == 63u8,
    ensures
        spec_dispatch_data(x, to) == Ok::<AprsDataView, AprsErrorView>(
            AprsDataView::Query(spec_parse_query(x)),
        ),
{
}

/// An information field that starts with `_` is a positionless weather
/// report.
pub proof fn lemma_dispatch_weather(x: Seq<u8>, to: CallsignView)
    requires
        x.len() > 0,
        x[0] == 95u8,
    ensures
        spec_dispatch_data(x, to) == wrap(
            spec_parse_positionless_weather(x),
            |w| AprsDataView::Weather(w),
        ),
{
}

/// An information field that starts with a MIC-E byte (`` ` ``, `'`,
/// `0x1C`, `0x1D`) is a MIC-E report read with the destination.
pub proof fn lemma_dispatch_mic_e(x: Seq<u8>, to: CallsignView)
    requires
        x.len() > 0,
        x[0] == 96u8 || x[0] == 39u8 || x[0] == 0x1Cu8 || x[0] == 0x1Du8,
    ensures
        spec_dispatch_data(x, to) == wrap(spec_parse_mic_e(x, to), |m| AprsDataView::MicE(m)),
{
}

/// A first byte that selects a kind of content.
pub open spec fn known_dti(b: u8) -> bool {
    b == 33u8 || b == 61u8 || b == 47u8 || b == 64u8 || b == 58u8 || b == 62u8 || b == 96u8
        || b == 39u8 || b == 0x1Cu8 || b == 0x1Du8 || b == 59u8 || b == 41u8 || b == 95u8
        || b == 84u8 || b == 60u8 || b == 63u8 || b == 91u8 || b == 36u8 || b == 125u8
        || b == 123u8
}

/// An information field whose first byte selects no kind is kept whole, as
/// is an empty one.
pub proof fn lemma_dispatch_unknown(x: Seq<u8>, to: CallsignView)
    requires
        x.len() == 0 || !known_dti(x[0]),
    ensures
        spec_dispatch_data(x, to) == Ok::<AprsDataView, AprsErrorView>(
            AprsDataView::Unknown {
                dti: if x.len() == 0 {
                    0
                } else {
                    x[0]
                },
                data: if x.len() == 0 {
                    Seq::empty()
                } else {
                    x
                },
            },
        ),
{
}

/// Which kind of content an information field decodes to is decided by its
/// first byte.
pub proof fn lemma_dispatch_kind(x: Seq<u8>, to: CallsignView)
    requires
        spec_dispatch_data(x, to) is Ok,
    ensures
        x.len() > 0 ==> (spec_dispatch_data(x, to)->Ok_0 is Message <==> x[0] == 58u8),
        x.len() > 0 ==> (spec_dispatch_data(x, to)->Ok_0 is Status <==> x[0] == 62u8),
        x.len() > 0 ==> (spec_dispatch_data(x, to)->Ok_0 is GridLocator <==> x[0] == 91u8),
        x.len() > 0 ==> (spec_dispatch_data(x, to)->Ok_0 is Capabilities <==> x[0] == 60u8),
        x.len() > 0 ==> (spec_dispatch_data(x, to)->Ok_0 is Nmea <==> x[0] == 36u8),
        x.len() > 0 ==> (spec_dispatch_data(x, to)->Ok_0 is UserDefined <==> x[0] == 123u8),
        x.len() > 0 ==> (spec_dispatch_data(x, to)->Ok_0 is ThirdParty <==> x[0] == 125u8),
        x.len() > 0 ==> (spec_dispatch_data(x, to)->Ok_0 is Query <==> x[0] == 63u8),
        x.len() > 0 ==> (spec_dispatch_data(x, to)->Ok_0 is Telemetry <==> x[0] == 84u8),
        x.len() > 0 ==> (spec_dispatch_data(x, to)->Ok_0 is Weather <==> x[0] == 95u8),
        x.len() > 0 ==> (spec_dispatch_data(x, to)->Ok_0 is Item <==> x[0] == 41u8),
        x.len() > 0 ==> (spec_dispatch_data(x, to)->Ok_0 is Object <==> x[0] == 59u8),
        x.len() > 0 ==> (spec_dispatch_data(x, to)->Ok_0 is MicE <==> (x[0] == 96u8 || x[0]
            == 39u8 || x[0] == 0x1Cu8 || x[0] == 0x1Du8)),
        x.len() > 0 ==> (spec_dispatch_data(x, to)->Ok_0 is Position <==> (x[0] == 33u8 || x[0]
            == 61u8 || x[0] == 47u8 || x[0] == 64u8)),
        spec_dispatch_data(x, to)->Ok_0 is Unknown <==> (x.len() == 0 || !known_dti(x[0])),
{
}

/// A textual packet `FROM>TO[,VIA...]:DATA`. An APRS-IS server comment line,
/// which starts with `#`, has no information field.
pub open spec fn spec_decode_textual(input: Seq<u8>) -> Result<AprsPacketView, AprsErrorView>
    decreases input.len(), 0int,
{
    if input.len() == 0 {
        Err(AprsErrorView::EmptyPacket)
    } else if input[0] == 35u8 {
        Err(AprsErrorView::MissingInfoDelimiter)
    } else {
        let colon = index_of(input, 58u8);
        if colon < 0 {
            Err(AprsErrorView::MissingInfoDelimiter)
        } else {
            proof {
                lemma_index_of(input, 58u8);
            }
            let header = input.subrange(0, colon);
            let info = input.subrange(colon + 1, input.len() as int);
            let arrow = index_of(header, 62u8);
            if arrow < 0 {
                Err(AprsErrorView::MissingDestinationDelimiter)
            } else {
                let from_b = header.subrange(0, arrow);
                let dv = header.subrange(arrow + 1, header.len() as int);
                let comma = index_of(dv, 44u8);
                let to_b = if comma < 0 {
                    dv
                } else {
                    dv.subrange(0, comma)
                };
                let via_b = if comma < 0 {
                    Seq::empty()
                } else {
                    dv.subrange(comma + 1, dv.len() as int)
                };
                spec_decode_fields(from_b, to_b, via_b, info)
            }
        }
    }
}

/// A packet from the text of its source, destination, via path and
/// information field; the first error in that order.
pub open spec fn spec_decode_fields(from_b: Seq<u8>, to_b: Seq<u8>, via_b: Seq<u8>, info: Seq<u8>) -> Result<
    AprsPacketView,
    AprsErrorView,
>
    decreases info.len(), 1int,
{
    match spec_decode_callsign(from_b) {
        Err(e) => Err(e),
        Ok(from) => match spec_decode_callsign(to_b) {
            Err(e) => Err(e),
            Ok(to) => match spec_parse_via(via_b) {
                Err(e) => Err(e),
                Ok(via) => match spec_dispatch_data(info, to) {
                    Err(e) => Err(e),
                    Ok(data) => Ok(AprsPacketView { from, to, via, data }),
                },
            },
        },
    }
}

/// `,` and the textual form of each via element.
pub open spec fn spec_encode_via(vs: Seq<DigipeaterView>) -> Seq<u8>
    decreases vs.len(),
{
    if vs.len() == 0 {
        Seq::empty()
    } else {
        spec_encode_via(vs.drop_last()) + seq![44u8] + spec_encode_digipeater(vs.last())
    }
}

/// The textual form of a packet.
pub open spec fn spec_encode_textual(p: AprsPacketView) -> Seq<u8>
    decreases p,
{
    spec_encode_callsign(p.from) + seq![62u8] + spec_encode_callsign(p.to) + spec_encode_via(p.via)
        + seq![58u8] + spec_encode_info(p.data)
}

/// The information field of a packet's content.
pub open spec fn spec_encode_info(d: AprsDataView) -> Seq<u8>
    decreases d,
{
    match d {
        AprsDataView::Position(x) => spec_encode_position_report(x),
        AprsDataView::Message(x) => spec_encode_message(x),
        AprsDataView::Status(x) => spec_encode_status(x),
        AprsDataView::MicE(x) => spec_encode_mic_e(x),
        AprsDataView::Object(x) => spec_encode_object(x),
        AprsDataView::Item(x) => spec_encode_item(x),
        AprsDataView::Weather(x) => spec_encode_positionless_weather(x),
        AprsDataView::Telemetry(x) => spec_encode_telemetry(x),
        AprsDataView::Capabilities(raw) => seq![60u8] + raw,
        AprsDataView::Query(x) => spec_encode_query(x),
        AprsDataView::GridLocator(x) => spec_encode_grid(x),
        AprsDataView::Nmea(raw) => seq![36u8] + raw,
        AprsDataView::ThirdParty(p) => seq![125u8] + spec_encode_textual(*p),
        AprsDataView::UserDefined { user_id, packet_type, data } => seq![
            123u8,
            user_id,
            packet_type,
        ] + data,
        AprsDataView::Unknown { dti, data } => data,
    }
}

/// Content whose fields every encoder can write.
pub open spec fn data_encodable(d: AprsDataView) -> bool
    decreases d,
{
    match d {
        AprsDataView::Position(x) => position_cs_encodable(x.position),
        AprsDataView::MicE(x) => mic_e_encodable(x),
        AprsDataView::Object(x) => position_ext_encodable(x.position, x.extension),
        AprsDataView::Item(x) => position_ext_encodable(x.position, x.extension),
        AprsDataView::ThirdParty(p) => data_encodable(p.data),
        _ => true,
    }
}

/// The AX.25 address fields of the via path from `input[pos]` on, each
/// digipeater's heard flag in bit 7 of its SSID byte, up to the one with the
/// end-of-address flag; and the position after it.
pub open spec fn spec_ax25_via(input: Seq<u8>, pos: int) -> Result<
    (Seq<DigipeaterView>, int),
    AprsErrorView,
>
    decreases input.len() - pos,
{
    if pos < 0 || pos + 7 > input.len() {
        Err(AprsErrorView::Ax25MissingEoa)
    } else {
        match spec_decode_callsign_ax25(input.subrange(pos, pos + 7)) {
            Err(e) => Err(e),
            Ok((c, eoa)) => {
                let d = DigipeaterView::Callsign(c, input[pos + 6] >= 128);
                if eoa {
                    Ok((seq![d], pos + 7))
                } else if pos + 7 >= input.len() {
                    Err(AprsErrorView::Ax25MissingEoa)
                } else {
                    match spec_ax25_via(input, pos + 7) {
                        Ok((rest, end)) => Ok((seq![d] + rest, end)),
                        Err(e) => Err(e),
                    }
                }
            },
        }
    }
}

/// A raw AX.25 UI frame: destination, source, repeaters, control `0x03`,
/// PID `0xF0`, information field.
pub open spec fn spec_decode_ax25(input: Seq<u8>) -> Result<AprsPacketView, AprsErrorView> {
    if input.len() < 16 {
        Err(AprsErrorView::Ax25FrameTooShort { len: input.len() as usize })
    } else {
        match spec_decode_callsign_ax25(input.subrange(0, 7)) {
            Err(e) => Err(e),
            Ok((to, _)) => match spec_decode_callsign_ax25(input.subrange(7, 14)) {
                Err(e) => Err(e),
                Ok((from, src_eoa)) => {
                    let vr = if src_eoa {
                        Ok((Seq::<DigipeaterView>::empty(), 14int))
                    } else {
                        spec_ax25_via(input, 14)
                    };
                    match vr {
                        Err(e) => Err(e),
                        Ok((digis, pos)) => spec_ax25_tail(input, pos, from, to, digis),
                    }
                },
            },
        }
    }
}

/// What follows the address fields of an AX.25 frame at `pos`: control
/// `0x03`, PID `0xF0`, and the information field.
#[verifier::opaque]
pub open spec fn spec_ax25_tail(
    input: Seq<u8>,
    pos: int,
    from: CallsignView,
    to: CallsignView,
    digis: Seq<DigipeaterView>,
) -> Result<AprsPacketView, AprsErrorView> {
    if pos >= input.len() {
        Err(AprsErrorView::TruncatedPacket { expected: (pos + 2) as usize, got: input.len() as usize })
    } else if input[pos] != 0x03u8 {
        Err(AprsErrorView::Ax25NotUiFrame { byte: input[pos] })
    } else if pos + 1 >= input.len() {
        Err(AprsErrorView::TruncatedPacket { expected: (pos + 2) as usize, got: input.len() as usize })
    } else if input[pos + 1] != 0xF0u8 {
        Err(AprsErrorView::Ax25NotAprsPid { byte: input[pos + 1] })
    } else {
        match spec_dispatch_data(input.subrange(pos + 2, input.len() as int), to) {
            Err(e) => Err(e),
            Ok(data) => Ok(AprsPacketView { from, to, via: digis, data }),
        }
    }
}

/// The AX.25 address field of a via element: its callsign (the gateway of a
/// Q-construct), with the has-been-repeated flag of a heard digipeater.
pub open spec fn spec_encode_digi_ax25(d: DigipeaterView, eoa: bool) -> Seq<u8> {
    match d {
        DigipeaterView::Callsign(c, heard) => spec_encode_address_ax25(c, eoa, heard),
        DigipeaterView::QConstruct(_, gw) => spec_encode_callsign_ax25(gw, eoa),
    }
}

fn encode_digi_ax25(d: &Digipeater, out: &mut Vec<u8>, eoa: bool)
    ensures
        final(out)@ == old(out)@ + spec_encode_digi_ax25(d@, eoa),
{
    match d {
        Digipeater::Callsign(call, heard) => {
            let start = out.len();
            call.encode_ax25(out, eoa);
            proof {
                crate::callsign::lemma_encode_callsign_ax25_ssid_byte(call@, eoa);
            }
            let n = out.len();
            assert(n == start + 7);
            if *heard {
                let b = out[n - 1];
                assert(b == spec_encode_callsign_ax25(call@, eoa)[6]);
                out.set(n - 1, b + 128);
                assert(out@ =~= old(out)@ + spec_encode_digi_ax25(d@, eoa));
            }
        },
        Digipeater::QConstruct(_, gw) => {
            gw.encode_ax25(out, eoa);
        },
    }
}

/// The AX.25 address fields of the via path: each digipeater's callsign (a
/// Q-construct's gateway), the last one flagged as end of address.
pub open spec fn spec_encode_ax25_via(vs: Seq<DigipeaterView>) -> Seq<u8>
    decreases vs.len(),
{
    if vs.len() == 0 {
        Seq::empty()
    } else {
        spec_encode_ax25_via(vs.drop_last()) + spec_encode_digi_ax25(vs.last(), false)
    }
}

/// The via fields of an AX.25 frame: all but the last without the
/// end-of-address flag.
pub open spec fn spec_ax25_via_fields(vs: Seq<DigipeaterView>) -> Seq<u8> {
    if vs.len() == 0 {
        Seq::empty()
    } else {
        spec_encode_ax25_via(vs.drop_last()) + spec_encode_digi_ax25(vs.last(), true)
    }
}

/// A packet as an AX.25 UI frame.
pub open spec fn spec_encode_ax25(p: AprsPacketView) -> Seq<u8> {
    spec_encode_callsign_ax25(p.to, false) + spec_encode_callsign_ax25(p.from, p.via.len() == 0)
        + spec_ax25_via_fields(p.via) + seq![0x03u8, 0xF0u8] + spec_encode_info(p.data)
}

fn vec_view_push(v: &mut Vec<Digipeater>, d: Digipeater)
    ensures
        final(v)@.map_values(|x: Digipeater| x@) == old(v)@.map_values(|x: Digipeater| x@) + seq![
            d@,
        ],
        final(v)@.len() == old(v)@.len() + 1,
{
    let ghost before = v@;
    v.push(d);
    assert(v@.map_values(|x: Digipeater| x@) =~= before.map_values(|x: Digipeater| x@) + seq![
        d@,
    ]);
}

/// Dispatch the information field to the correct packet parser by DTI.
/// For MIC-E the destination callsign is also needed.
pub fn dispatch_data(info: &[u8], to: &Callsign) -> (r: Result<AprsData, AprsError>)
    ensures
        match (r, spec_dispatch_data(info@, to@)) {
            (Ok(d), Ok(v)) => d@ == v,
            (Err(e), Err(v)) => e@ == v,
            _ => false,
        },
    decreases info@.len(), 1int,
{
    if info.len() == 0 {
        return Ok(AprsData::Unknown { dti: 0, data: Vec::new() });
    }
    let dti = info[0];
    if dti == '!' as u8 || dti == '=' as u8 || dti == '/' as u8 || dti == '@' as u8 {
        match AprsPosition::parse(info) {
            Ok(x) => Ok(AprsData::Position(x)),
            Err(e) => Err(e),
        }
    } else if dti == ':' as u8 {
        match AprsMessage::parse(info) {
            Ok(x) => Ok(AprsData::Message(x)),
            Err(e) => Err(e),
        }
    } else if dti == '>' as u8 {
        match AprsStatus::parse(info) {
            Ok(x) => Ok(AprsData::Status(x)),
            Err(e) => Err(e),
        }
    } else if dti == '`' as u8 || dti == '\'' as u8 || dti == 0x1C || dti == 0x1D {
        match AprsMicE::parse(info, to) {
            Ok(x) => Ok(AprsData::MicE(x)),
            Err(e) => Err(e),
        }
    } else if dti == ';' as u8 {
        match AprsObject::parse(info) {
            Ok(x) => Ok(AprsData::Object(x)),
            Err(e) => Err(e),
        }
    } else if dti == ')' as u8 {
        match AprsItem::parse(info) {
            Ok(x) => Ok(AprsData::Item(x)),
            Err(e) => Err(e),
        }
    } else if dti == '_' as u8 {
        match AprsPositionlessWeather::parse(info) {
            Ok(x) => Ok(AprsData::Weather(x)),
            Err(e) => Err(e),
        }
    } else if dti == 'T' as u8 {
        match AprsTelemetry::parse(info) {
            Ok(x) => Ok(AprsData::Telemetry(x)),
            Err(e) => Err(e),
        }
    } else if dti == '<' as u8 {
        Ok(AprsData::Capabilities(AprsCapabilities::parse(info)))
    } else if dti == '?' as u8 {
        Ok(AprsData::Query(AprsQuery::parse(info)))
    } else if dti == '[' as u8 {
        match AprsGridLocator::parse(info) {
            Ok(x) => Ok(AprsData::GridLocator(x)),
            Err(e) => Err(e),
        }
    } else if dti == '$' as u8 {
        Ok(AprsData::Nmea(AprsNmea::parse(info)))
    } else if dti == '}' as u8 {
        match AprsThirdParty::parse(info) {
            Ok(x) => Ok(AprsData::ThirdParty(x)),
            Err(e) => Err(e),
        }
    } else if dti == '{' as u8 {
        Ok(AprsData::UserDefined(AprsUserDefined::parse(info)))
    } else {
        let data = copy_from(info, 0);
        assert(data@ =~= info@);
        Ok(AprsData::Unknown { dti, data })
    }
}

impl AprsThirdParty {
    /// Decode from the information field (including the leading `}` DTI byte).
    pub fn parse(info: &[u8]) -> (r: Result<Self, AprsError>)
        ensures
            match (r, spec_decode_textual(after_dti(info@))) {
                (Ok(t), Ok(v)) => t@ == v,
                (Err(e), Err(v)) => e@ == v,
                _ => false,
            },
        decreases info@.len(), 0int,
    {
        if info.len() == 0 {
            return Err(AprsError::EmptyPacket);
        }
        let inner_bytes = vstd::slice::slice_subrange(info, 1, info.len());
        assert(inner_bytes@ =~= after_dti(info@));
        match AprsPacket::decode_textual(inner_bytes) {
            Ok(p) => Ok(AprsThirdParty { inner: Box::new(p) }),
            Err(e) => Err(e),
        }
    }

    /// The information field: `}` and the inner packet in textual form.
    pub fn encode(&self) -> (r: Result<Vec<u8>, AprsError>)
        requires
            data_encodable(self@.data),
        ensures
            r matches Ok(v) && v@ == seq![125u8] + spec_encode_textual(self@),
        decreases self,
    {
        let mut out: Vec<u8> = Vec::new();
        out.push('}' as u8);
        let inner = match self.inner.encode_textual() {
            Ok(v) => v,
            Err(e) => {
                return Err(e);
            },
        };
        extend(&mut out, inner.as_slice());
        Ok(out)
    }
}

fn encode_data(d: &AprsData, out: &mut Vec<u8>) -> (r: Result<(), AprsError>)
    requires
        data_encodable(d@),
    ensures
        r is Ok,
        final(out)@ == old(out)@ + spec_encode_info(d@),
    decreases d,
{
    match d {
        AprsData::Position(x) => extend(out, x.encode().as_slice()),
        AprsData::Message(x) => extend(out, x.encode().as_slice()),
        AprsData::Status(x) => extend(out, x.encode().as_slice()),
        AprsData::MicE(x) => extend(out, x.encode().as_slice()),
        AprsData::Object(x) => extend(out, x.encode().as_slice()),
        AprsData::Item(x) => extend(out, x.encode().as_slice()),
        AprsData::Weather(x) => extend(out, x.encode().as_slice()),
        AprsData::Telemetry(x) => extend(out, x.encode().as_slice()),
        AprsData::Capabilities(x) => extend(out, x.encode().as_slice()),
        AprsData::Query(x) => extend(out, x.encode().as_slice()),
        AprsData::GridLocator(x) => extend(out, x.encode().as_slice()),
        AprsData::Nmea(x) => extend(out, x.encode().as_slice()),
        AprsData::ThirdParty(x) => {
            let v = match x.encode() {
                Ok(v) => v,
                Err(e) => {
                    return Err(e);
                },
            };
            extend(out, v.as_slice());
        },
        AprsData::UserDefined(x) => extend(out, x.encode().as_slice()),
        AprsData::Unknown { dti: _, data } => extend(out, data.as_slice()),
    }
    Ok(())
}

fn ax25_via(input: &[u8], pos: usize) -> (r: Result<(Vec<Digipeater>, usize), AprsError>)
    ensures
        match (r, spec_ax25_via(input@, pos as int)) {
            (Ok((v, end)), Ok((sv, send))) => v@.map_values(|x: Digipeater| x@) == sv && end
                == send && end <= input@.len(),
            (Err(e), Err(se)) => e@ == se,
            _ => false,
        },
    decreases input@.len() - pos,
{
    if input.len() < 7 || pos > input.len() - 7 {
        return Err(AprsError::Ax25MissingEoa);
    }
    let (digi_call, eoa) = match Callsign::decode_ax25(vstd::slice::slice_subrange(input, pos, pos + 7)) {
        Ok(x) => x,
        Err(e) => {
            return Err(e);
        },
    };
    let heard = input[pos + 6] >= 128;
    let d = Digipeater::Callsign(digi_call, heard);
    let next = pos + 7;
    if eoa {
        let mut v: Vec<Digipeater> = Vec::new();
        vec_view_push(&mut v, d);
        assert(v@.map_values(|x: Digipeater| x@) =~= seq![d@]);
        return Ok((v, next));
    }
    if next >= input.len() {
        return Err(AprsError::Ax25MissingEoa);
    }
    match ax25_via(input, next) {
        Ok((rest, end)) => {
            let mut v: Vec<Digipeater> = Vec::new();
            vec_view_push(&mut v, d);
            let mut k: usize = 0;
            let ghost rv = rest@.map_values(|x: Digipeater| x@);
            let mut rest = rest;
            let ghost orig = rest@;
            while rest.len() > 0
                invariant
                    v@.map_values(|x: Digipeater| x@) + rest@.map_values(|x: Digipeater| x@)
                        == seq![d@] + rv,
                decreases rest.len(),
            {
                let x = rest.remove(0);
                let ghost before = v@.map_values(|x: Digipeater| x@);
                vec_view_push(&mut v, x);
                assert(before + seq![x@] + rest@.map_values(|x: Digipeater| x@) =~= seq![d@] + rv);
            }
            assert(v@.map_values(|x: Digipeater| x@) =~= seq![d@] + rv);
            Ok((v, end))
        },
        Err(e) => Err(e),
    }
}

#[verifier::rlimit(100)]
fn decode_ax25_tail(
    input: &[u8],
    pos: usize,
    from: Callsign,
    to: Callsign,
    digis: Vec<Digipeater>,
) -> (r: Result<AprsPacket, AprsError>)
    requires
        pos <= input@.len(),
        input@.len() + 2 <= usize::MAX,
    ensures
        match (r, spec_ax25_tail(input@, pos as int, from@, to@, digis@.map_values(|x: Digipeater| x@))) {
            (Ok(p), Ok(v)) => p@ == v,
            (Err(e), Err(v)) => e@ == v,
            _ => false,
        },
{
    proof {
        reveal(spec_ax25_tail);
    }
    if pos >= input.len() {
        return Err(AprsError::TruncatedPacket { expected: pos + 2, got: input.len() });
    }
    if input[pos] != 0x03 {
        return Err(AprsError::Ax25NotUiFrame { byte: input[pos] });
    }
    if pos + 1 >= input.len() {
        return Err(AprsError::TruncatedPacket { expected: pos + 2, got: input.len() });
    }
    if input[pos + 1] != 0xF0 {
        return Err(AprsError::Ax25NotAprsPid { byte: input[pos + 1] });
    }
    let info = vstd::slice::slice_subrange(input, pos + 2, input.len());
    let data = match dispatch_data(info, &to) {
        Ok(d) => d,
        Err(e) => {
            return Err(e);
        },
    };
    Ok(AprsPacket { from, to, via: digis, data })
}

/// A packet from the text of its source, destination, via path and
/// information field.
fn decode_fields(from_bytes: &[u8], to_bytes: &[u8], via_bytes: &[u8], info: &[u8]) -> (r: Result<
    AprsPacket,
    AprsError,
>)
    ensures
        match (r, spec_decode_fields(from_bytes@, to_bytes@, via_bytes@, info@)) {
            (Ok(p), Ok(v)) => p@ == v,
            (Err(e), Err(v)) => e@ == v,
            _ => false,
        },
    decreases info@.len(), 3int,
{
    let from = match Callsign::decode_textual(from_bytes) {
        Ok(c) => c,
        Err(e) => {
            return Err(e);
        },
    };
    let to = match Callsign::decode_textual(to_bytes) {
        Ok(c) => c,
        Err(e) => {
            return Err(e);
        },
    };
    let via = match parse_via(via_bytes) {
        Ok(v) => v,
        Err(e) => {
            return Err(e);
        },
    };
    let data = match dispatch_data(info, &to) {
        Ok(d) => d,
        Err(e) => {
            return Err(e);
        },
    };
    let p = AprsPacket { from, to, via, data };
    proof {
        let v = spec_decode_fields(from_bytes@, to_bytes@, via_bytes@, info@)->Ok_0;
        assert(p@.via =~= v.via);
    }
    Ok(p)
}

impl AprsPacket {
    /// Decode a textual APRS packet (APRS-IS format).
    ///
    /// Expected format: `FROM>TO[,VIA...]:DATA`. A line that starts with `#` (an
    /// APRS-IS server comment) is rejected with `MissingInfoDelimiter`.
    ///
    /// The input is `&[u8]` rather than `&str` because APRS information fields may
    /// contain arbitrary bytes (e.g. MIC-E uses bytes 0x1C and 0x1D).
    pub fn decode_textual(input: &[u8]) -> (r: Result<Self, AprsError>)
        ensures
            match (r, spec_decode_textual(input@)) {
                (Ok(p), Ok(v)) => p@ == v,
                (Err(e), Err(v)) => e@ == v,
                _ => false,
            },
        decreases input@.len(), 2int,
    {
        if input.len() == 0 {
            return Err(AprsError::EmptyPacket);
        }
        if input[0] == '#' as u8 {
            return Err(AprsError::MissingInfoDelimiter);
        }
        proof {
            lemma_index_of(input@, 58u8);
        }
        let colon = match find_byte(input, ':' as u8) {
            Some(c) => c,
            None => {
                return Err(AprsError::MissingInfoDelimiter);
            },
        };
        let header = vstd::slice::slice_subrange(input, 0, colon);
        let info = vstd::slice::slice_subrange(input, colon + 1, input.len());
        proof {
            lemma_index_of(header@, 62u8);
        }
        let arrow = match find_byte(header, '>' as u8) {
            Some(a) => a,
            None => {
                return Err(AprsError::MissingDestinationDelimiter);
            },
        };
        let from_bytes = vstd::slice::slice_subrange(header, 0, arrow);
        let dest_via = vstd::slice::slice_subrange(header, arrow + 1, header.len());
        proof {
            lemma_index_of(dest_via@, 44u8);
        }
        let (to_bytes, via_bytes) = match find_byte(dest_via, ',' as u8) {
            Some(comma) => (
                vstd::slice::slice_subrange(dest_via, 0, comma),
                vstd::slice::slice_subrange(dest_via, comma + 1, dest_via.len()),
            ),
            None => (dest_via, vstd::slice::slice_subrange(dest_via, 0, 0)),
        };
        proof {
            assert(dest_via@.subrange(0, 0) =~= Seq::<u8>::empty());
        }
        decode_fields(from_bytes, to_bytes, via_bytes, info)
    }

    /// Decode a raw AX.25 UI frame.
    ///
    /// Frame structure:
    ///   Destination (7 bytes) + Source (7 bytes) + Repeaters (0–8 × 7 bytes)
    ///   + Control (0x03) + PID (0xF0) + Information field
    pub fn decode_ax25(input: &[u8]) -> (r: Result<Self, AprsError>)
        requires
            input@.len() + 2 <= usize::MAX,
        ensures
            match (r, spec_decode_ax25(input@)) {
                (Ok(p), Ok(v)) => p@ == v,
                (Err(e), Err(v)) => e@ == v,
                _ => false,
            },
    {
        if input.len() < 16 {
            return Err(AprsError::Ax25FrameTooShort { len: input.len() });
        }
        let (to, _) = match Callsign::decode_ax25(vstd::slice::slice_subrange(input, 0, 7)) {
            Ok(x) => x,
            Err(e) => {
                return Err(e);
            },
        };
        let (from, src_eoa) = match Callsign::decode_ax25(vstd::slice::slice_subrange(input, 7, 14)) {
            Ok(x) => x,
            Err(e) => {
                return Err(e);
            },
        };
        let (digis, pos): (Vec<Digipeater>, usize) = if src_eoa {
            let v: Vec<Digipeater> = Vec::new();
            assert(v@.map_values(|x: Digipeater| x@) =~= Seq::<DigipeaterView>::empty());
            (v, 14usize)
        } else {
            match ax25_via(input, 14) {
                Ok(x) => x,
                Err(e) => {
                    return Err(e);
                },
            }
        };
        let ghost ts = spec_ax25_tail(input@, pos as int, from@, to@, digis@.map_values(|x: Digipeater| x@));
        assert(spec_decode_ax25(input@) == ts);
        decode_ax25_tail(input, pos, from, to, digis)
    }

    /// Encode this packet to textual APRS-IS format.
    pub fn encode_textual(&self) -> (r: Result<Vec<u8>, AprsError>)
        requires
            data_encodable(self@.data),
        ensures
            r matches Ok(v) && v@ == spec_encode_textual(self@),
        decreases self,
    {
        let mut out: Vec<u8> = Vec::new();
        self.from.encode_textual(&mut out);
        out.push('>' as u8);
        self.to.encode_textual(&mut out);
        let ghost head = out@;
        let mut i: usize = 0;
        while i < self.via.len()
            invariant
                i <= self.via@.len(),
                out@ == head + spec_encode_via(
                    self.via@.map_values(|x: Digipeater| x@).subrange(0, i as int),
                ),
            decreases self.via.len() - i,
        {
            out.push(',' as u8);
            self.via[i].encode_textual(&mut out);
            proof {
                let vs = self.via@.map_values(|x: Digipeater| x@);
                assert(vs.subrange(0, i + 1).drop_last() =~= vs.subrange(0, i as int));
                assert(vs.subrange(0, i + 1).last() == self.via@[i as int]@);
            }
            i = i + 1;
            assert(out@ =~= head + spec_encode_via(
                self.via@.map_values(|x: Digipeater| x@).subrange(0, i as int),
            ));
        }
        assert(self.via@.map_values(|x: Digipeater| x@).subrange(0, i as int) =~= self@.via);
        out.push(':' as u8);
        match encode_data(&self.data, &mut out) {
            Ok(()) => {},
            Err(e) => {
                return Err(e);
            },
        }
        assert(out@ =~= spec_encode_textual(self@));
        Ok(out)
    }

    /// Encode this packet to a raw AX.25 UI frame.
    pub fn encode_ax25(&self) -> (r: Result<Vec<u8>, AprsError>)
        requires
            data_encodable(self@.data),
        ensures
            r matches Ok(v) && v@ == spec_encode_ax25(self@),
    {
        let mut out: Vec<u8> = Vec::new();
        self.to.encode_ax25(&mut out, false);
        let src_eoa = self.via.len() == 0;
        self.from.encode_ax25(&mut out, src_eoa);
        let ghost head = out@;
        let ghost vs = self.via@.map_values(|x: Digipeater| x@);
        let n = self.via.len();
        let mut i: usize = 0;
        while i + 1 < n
            invariant
                n == self.via@.len(),
                vs == self.via@.map_values(|x: Digipeater| x@),
                i < n || n == 0,
                i == 0 || i + 1 <= n,
                out@ == head + spec_encode_ax25_via(vs.subrange(0, i as int)),
            decreases n - i,
        {
            encode_digi_ax25(&self.via[i], &mut out, false);
            proof {
                assert(vs.subrange(0, i + 1).drop_last() =~= vs.subrange(0, i as int));
                assert(vs.subrange(0, i + 1).last() == self.via@[i as int]@);
            }
            i = i + 1;
        }
        if n > 0 {
            encode_digi_ax25(&self.via[n - 1], &mut out, true);
            proof {
                assert(vs.drop_last() =~= vs.subrange(0, i as int));
                assert(vs.last() == self.via@[n - 1]@);
                assert(out@ =~= head + spec_ax25_via_fields(vs));
            }
        } else {
            assert(out@ =~= head + spec_ax25_via_fields(vs));
        }
        out.push(0x03);
        out.push(0xF0);
        match encode_data(&self.data, &mut out) {
            Ok(()) => {},
            Err(e) => {
                return Err(e);
            },
        }
        assert(out@ =~= spec_encode_ax25(self@));
        Ok(out)
    }
}


/// What follows the first `:` of a textual packet.
pub open spec fn info_of(x: Seq<u8>) -> Seq<u8> {
    x.subrange(index_of(x, 58u8) + 1, x.len() as int)
}

/// An information field that decodes still decodes with bytes appended that
/// do not start with a data type indicator (such as the CR LF that ends an
/// APRS-IS line).
pub proof fn lemma_dispatch_extend(info: Seq<u8>, to: CallsignView, t: Seq<u8>)
    requires
        spec_dispatch_data(info, to) is Ok,
        t.len() == 0 || !known_dti(t[0]),
    ensures
        spec_dispatch_data(info + t, to) is Ok,
    decreases info.len(), 0int,
{
    let c = info + t;
    if info.len() == 0 {
        assert(c =~= t);
    } else {
        assert(c[0] == info[0]);
        let dti = info[0];
        if dti == 33u8 || dti == 61u8 || dti == 47u8 || dti == 64u8 {
            crate::position::lemma_position_report_extend(info, t);
        } else if dti == 96u8 || dti == 39u8 || dti == 0x1Cu8 || dti == 0x1Du8 {
            crate::mic_e::lemma_mic_e_extend(info, to, t);
        } else if dti == 59u8 {
            crate::object::lemma_object_extend(info, t);
        } else if dti == 41u8 {
            crate::item::lemma_item_extend(info, t);
        } else if dti == 95u8 {
            crate::weather::lemma_positionless_weather_extend(info, t);
        } else if dti == 91u8 {
            crate::grid::lemma_grid_extend(info, t);
        } else if dti == 125u8 {
            assert(after_dti(c) =~= after_dti(info) + t);
            lemma_textual_extend(after_dti(info), t);
        } else if dti == 58u8 {
            assert(c[10] == info[10]);
        } else if dti == 84u8 {
            assert(c[1] == info[1]);
        }
    }
}

/// A textual packet that decodes still decodes with bytes appended that do
/// not start with a data type indicator, with the same header: its content
/// is then read from the information field with those bytes.
pub proof fn lemma_textual_extend(x: Seq<u8>, t: Seq<u8>)
    requires
        spec_decode_textual(x) is Ok,
        t.len() == 0 || !known_dti(t[0]),
    ensures
        ({
            let p = spec_decode_textual(x)->Ok_0;
            spec_decode_textual(x + t) == Ok::<AprsPacketView, AprsErrorView>(
                AprsPacketView {
                    from: p.from,
                    to: p.to,
                    via: p.via,
                    data: spec_dispatch_data(info_of(x) + t, p.to)->Ok_0,
                },
            )
        }),
    decreases x.len(), 1int,
{
    let y = x + t;
    lemma_index_of(x, 58u8);
    let colon = index_of(x, 58u8);
    assert forall|j: int| 0 <= j < colon implies y[j] != 58u8 by {
        assert(y[j] == x[j]);
    }
    assert(y[colon] == x[colon]);
    crate::util::lemma_index_of_at(y, 58u8, colon);
    assert(y.subrange(0, colon) =~= x.subrange(0, colon));
    assert(y.subrange(colon + 1, y.len() as int) =~= info_of(x) + t);
    assert(y[0] == x[0]);
    let p = spec_decode_textual(x)->Ok_0;
    lemma_dispatch_extend(info_of(x), p.to, t);
}

} // verus!
