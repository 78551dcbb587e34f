//! Bus lines, stations and real-time buses as the service describes them.
//! Coordinates stay the decimal texts that the service sends; turning them
//! into numbers is left to the caller.
use vstd::prelude::*;
use vstd::string::StringExecFns;

use crate::text::{decimal, usize_to_decimal};

verus! {

/// A position as the service writes it: latitude and longitude in decimal
/// text.
#[derive(Debug)]
pub struct LatLngText {
    pub lat: String,
    pub lng: String,
}

/// The texts of a position: `(lat, lng)`.
impl View for LatLngText {
    type V = (Seq<char>, Seq<char>);

    open spec fn view(&self) -> (Seq<char>, Seq<char>) {
        (self.lat@, self.lng@)
    }
}

/// The text of the origin coordinate, `0`.
pub open spec fn zero_text() -> Seq<char> {
    seq!['0']
}

impl LatLngText {
    /// The origin, `(0, 0)`.
    pub fn new() -> (p: LatLngText)
        ensures
            p@ == (zero_text(), zero_text()),
    {
        LatLngText { lat: usize_to_decimal(0), lng: usize_to_decimal(0) }
    }
}

/// A station of a bus line.
#[derive(Debug)]
pub struct BusStation {
    pub coords: LatLngText,
    pub name: String,
}

/// The texts of a station.
pub struct StationView {
    pub coords: (Seq<char>, Seq<char>),
    pub name: Seq<char>,
}

impl View for BusStation {
    type V = StationView;

    open spec fn view(&self) -> StationView {
        StationView { coords: self.coords@, name: self.name@ }
    }
}

impl BusStation {
    /// A station with no name at the origin.
    pub fn new() -> (s: BusStation)
        ensures
            s@ == (StationView { coords: (zero_text(), zero_text()), name: Seq::empty() }),
    {
        BusStation { coords: LatLngText::new(), name: String::new() }
    }
}

/// A bus line: its route, names, operating hours and stations.
#[derive(Debug)]
pub struct BusLine {
    pub id: i32,
    pub version: i32,
    pub route: Vec<LatLngText>,
    pub short_name: String,
    pub long_name: String,
    pub operation_time: String,
    pub stations: Vec<BusStation>,
}

/// The content of a bus line.
pub struct BusLineView {
    pub id: i32,
    pub version: i32,
    pub route: Seq<(Seq<char>, Seq<char>)>,
    pub short_name: Seq<char>,
    pub long_name: Seq<char>,
    pub operation_time: Seq<char>,
    pub stations: Seq<StationView>,
}

/// The views of a sequence of positions.
pub open spec fn route_view(route: Seq<LatLngText>) -> Seq<(Seq<char>, Seq<char>)> {
    route.map_values(|p: LatLngText| p@)
}

/// The views of a sequence of stations.
pub open spec fn stations_view(stations: Seq<BusStation>) -> Seq<StationView> {
    stations.map_values(|s: BusStation| s@)
}

impl View for BusLine {
    type V = BusLineView;

    open spec fn view(&self) -> BusLineView {
        BusLineView {
            id: self.id,
            version: self.version,
            route: route_view(self.route@),
            short_name: self.short_name@,
            long_name: self.long_name@,
            operation_time: self.operation_time@,
            stations: stations_view(self.stations@),
        }
    }
}

/// The text that describes a bus line:
/// `<BUS:{long_name} {operation_time} ({stations}站) id={id}#{version}>`.
pub open spec fn busline_text(
    long_name: Seq<char>,
    operation_time: Seq<char>,
    stations: nat,
    id: int,
    version: int,
) -> Seq<char> {
    "<BUS:"@ + long_name + " "@ + operation_time + " ("@ + decimal(stations) + "站) id="@
        + signed_decimal(id) + "#"@ + signed_decimal(version) + ">"@
}

/// The decimal notation of the integer `n`, with `-` before negative values.
pub open spec fn signed_decimal(n: int) -> Seq<char> {
    if n < 0 {
        seq!['-'] + decimal((-n) as nat)
    } else {
        decimal(n as nat)
    }
}

/// Formats `n` in decimal, as `format!("{}", n)` does for an `i32`.
pub fn i32_to_decimal(n: i32) -> (s: String)
    ensures
        s@ == signed_decimal(n as int),
{
    if n < 0 {
        let magnitude: usize = if n == i32::MIN {
            2147483648usize
        } else {
            (0 - n) as usize
        };
        let minus: &str = "-";
        proof {
            reveal_strlit("-");
        }
        let digits = usize_to_decimal(magnitude);
        let s = minus.to_owned().concat(digits.as_str());
        assert(s@ =~= signed_decimal(n as int));
        s
    } else {
        usize_to_decimal(n as usize)
    }
}

impl BusLine {
    /// A line with the given id and nothing else known yet.
    pub fn new(id: i32) -> (line: BusLine)
        ensures
            line@ == (BusLineView {
                id: id,
                version: 0,
                route: Seq::empty(),
                short_name: Seq::empty(),
                long_name: Seq::empty(),
                operation_time: Seq::empty(),
                stations: Seq::empty(),
            }),
    {
        let line = BusLine {
            id: id,
            version: 0,
            route: Vec::new(),
            short_name: String::new(),
            long_name: String::new(),
            operation_time: String::new(),
            stations: Vec::new(),
        };
        assert(route_view(line.route@) =~= Seq::empty());
        assert(stations_view(line.stations@) =~= Seq::empty());
        line
    }

    /// The one-line description of the line.
    pub fn display_text(&self) -> (s: String)
        ensures
            s@ == busline_text(
                self.long_name@,
                self.operation_time@,
                self.stations@.len(),
                self.id as int,
                self.version as int,
            ),
    {
        let count = usize_to_decimal(self.stations.len());
        let id = i32_to_decimal(self.id);
        let version = i32_to_decimal(self.version);
        let s = "<BUS:".to_owned();
        let s = s.concat(self.long_name.as_str());
        let s = s.concat(" ");
        let s = s.concat(self.operation_time.as_str());
        let s = s.concat(" (");
        let s = s.concat(count.as_str());
        let s = s.concat("站) id=");
        let s = s.concat(id.as_str());
        let s = s.concat("#");
        let s = s.concat(version.as_str());
        let s = s.concat(">");
        s
    }
}

/// A bus on its way, as the real-time service reports it.
#[derive(Debug)]
pub struct RealtimeBus {
    pub id: i32,
    pub type_: i32,
    pub coords: LatLngText,
    pub next_station: String,
    pub next_station_no: i32,
    pub next_station_run_time: i32,
    pub next_station_time: i32,
    pub gps_update_time: i64,
    pub station_distance: i32,
    pub station_run_time: i32,
    pub station_time: i32,
}

/// The status line of a bus: `bus#{id} 到站！ => {next}` when both of its
/// next-station times are `-1` (it stands at the station), else
/// `bus#{id} 下一站 => {next}`.
pub open spec fn bus_status_text(
    id: int,
    next_station: Seq<char>,
    next_station_run_time: int,
    next_station_time: int,
) -> Seq<char> {
    if next_station_run_time == -1 && next_station_time == -1 {
        "bus#"@ + signed_decimal(id) + " 到站！ => "@ + next_station
    } else {
        "bus#"@ + signed_decimal(id) + " 下一站 => "@ + next_station
    }
}

/// The status line says `到站` (arrived) exactly when both next-station
/// times are `-1`, and `下一站` (next station) otherwise: the character
/// after `bus#{id} ` is `到` for an arrived bus and `下` for any other.
/// An arrived bus reads `bus#{id} 到站！ => {next}`.
pub proof fn lemma_status_says_arrival(
    id: int,
    next_station: Seq<char>,
    next_station_run_time: int,
    next_station_time: int,
)
    ensures
        ({
            let text = bus_status_text(id, next_station, next_station_run_time, next_station_time);
            let at = signed_decimal(id).len() as int + 5;
            &&& text[at] == (if next_station_run_time == -1 && next_station_time == -1 {
                '到'
            } else {
                '下'
            })
            &&& (next_station_run_time == -1 && next_station_time == -1) ==> text == seq![
                'b',
                'u',
                's',
                '#',
            ] + signed_decimal(id) + seq![' ', '到', '站', '！', ' ', '=', '>', ' ']
                + next_station
        }),
{
    reveal_strlit("bus#");
    reveal_strlit(" 到站！ => ");
    reveal_strlit(" 下一站 => ");
    assert("bus#"@ =~= seq!['b', 'u', 's', '#']);
    assert(" 到站！ => "@ =~= seq![' ', '到', '站', '！', ' ', '=', '>', ' ']);
    assert(" 下一站 => "@ =~= seq![' ', '下', '一', '站', ' ', '=', '>', ' ']);
}

impl RealtimeBus {
    /// A bus with every number zero, no next station and the origin as
    /// position.
    pub fn new() -> (b: RealtimeBus)
        ensures
            b.id == 0 && b.type_ == 0 && b.next_station_no == 0,
            b.next_station_run_time == 0 && b.next_station_time == 0,
            b.gps_update_time == 0 && b.station_distance == 0,
            b.station_run_time == 0 && b.station_time == 0,
            b.coords@ == (zero_text(), zero_text()),
            b.next_station@ == Seq::<char>::empty(),
    {
        RealtimeBus {
            id: 0,
            type_: 0,
            coords: LatLngText::new(),
            next_station: String::new(),
            next_station_no: 0,
            next_station_run_time: 0,
            next_station_time: 0,
            gps_update_time: 0,
            station_distance: 0,
            station_run_time: 0,
            station_time: 0,
        }
    }

    /// The bus has reached its next station: both next-station times are `-1`.
    pub fn has_arrived(&self) -> (arrived: bool)
        ensures
            arrived == (self.next_station_run_time == -1 && self.next_station_time == -1),
    {
        self.next_station_run_time == -1 && self.next_station_time == -1
    }

    /// The status line that describes the bus.
    pub fn describ(&self) -> (s: String)
        ensures
            s@ == bus_status_text(
                self.id as int,
                self.next_station@,
                self.next_station_run_time as int,
                self.next_station_time as int,
            ),
    {
        let id = i32_to_decimal(self.id);
        let head = "bus#".to_owned().concat(id.as_str());
        let middle: &str = if self.has_arrived() {
            " 到站！ => "
        } else {
            " 下一站 => "
        };
        head.concat(middle).concat(self.next_station.as_str())
    }
}

} // verus!
