//! The points that one round of reading leaves in InfluxDB.

use influxdb2::models::data_point::{DataPointBuilder, DataPointError};
use influxdb2::models::{DataPoint, FieldValue};
use vstd::prelude::*;

use crate::solark::RegData;
use crate::text::{tenths_decimal, tenths_text};

verus! {

/// A tag that every point carries.
#[derive(Debug)]
pub struct SettingsPair {
    pub key: String,
    pub val: String,
}

impl Clone for SettingsPair {
    fn clone(&self) -> (r: Self)
        ensures
            r == *self,
    {
        SettingsPair { key: self.key.clone(), val: self.val.clone() }
    }
}

/// How the database is reached and what every point carries.
#[derive(Debug)]
pub struct InfluxSettings {
    pub enable: bool,
    pub token: String,
    pub bucket: String,
    pub org: String,
    pub url: String,
    pub tags: Vec<SettingsPair>,
}

impl InfluxSettings {
    /// Both hold the same settings.
    pub open spec fn same(self, other: Self) -> bool {
        &&& self.enable == other.enable
        &&& self.token@ == other.token@
        &&& self.bucket@ == other.bucket@
        &&& self.org@ == other.org@
        &&& self.url@ == other.url@
        &&& self.tags@ == other.tags@
    }
}

impl Clone for InfluxSettings {
    fn clone(&self) -> (r: Self)
        ensures
            r.same(*self),
    {
        let tags = self.tags.clone();
        assert(tags@ =~= self.tags@);
        InfluxSettings {
            enable: self.enable,
            token: self.token.clone(),
            bucket: self.bucket.clone(),
            org: self.org.clone(),
            url: self.url.clone(),
            tags,
        }
    }
}

/// The value of a field of a point.
pub enum PointField {
    Integer(i64),
    /// The floating-point number closest to so many tenths.
    Tenths(i16),
}

/// What a point carries.
#[verifier::ext_equal]
pub struct PointContent {
    pub measurement: Seq<char>,
    pub tags: Map<Seq<char>, Seq<char>>,
    pub fields: Map<Seq<char>, PointField>,
    pub timestamp: Option<i64>,
}

/// `influxdb2`'s point.
#[verifier::external_type_specification]
#[verifier::external_body]
pub struct ExDataPoint(DataPoint);

/// `influxdb2`'s point in the making.
#[verifier::external_type_specification]
#[verifier::external_body]
pub struct ExDataPointBuilder(DataPointBuilder);

/// Why `influxdb2` could not make a point.
#[verifier::external_type_specification]
#[verifier::external_body]
pub struct ExDataPointError(DataPointError);

/// What a point in the making has been given so far.
pub uninterp spec fn builder_content(b: DataPointBuilder) -> PointContent;

/// What a finished point carries.
pub uninterp spec fn point_content(p: DataPoint) -> PointContent;

/// `DataPoint::builder` starts a point that has its measurement and nothing
/// else.
#[verifier::external_body]
fn start_point(measurement: &str) -> (r: DataPointBuilder)
    ensures
        builder_content(r) == (PointContent {
            measurement: measurement@,
            tags: Map::empty(),
            fields: Map::empty(),
            timestamp: None,
        }),
{
    DataPoint::builder(measurement)
}

/// `DataPointBuilder::tag` sets a tag, in place of one of the same name, and
/// keeps the rest.
#[verifier::external_body]
fn with_tag(b: DataPointBuilder, name: &str, value: &str) -> (r: DataPointBuilder)
    ensures
        builder_content(r) == (PointContent {
            tags: builder_content(b).tags.insert(name@, value@),
            ..builder_content(b)
        }),
{
    b.tag(name, value)
}

/// `DataPointBuilder::field` with an integer sets a field, in place of one of
/// the same name, and keeps the rest.
#[verifier::external_body]
fn with_integer(b: DataPointBuilder, name: &str, value: i64) -> (r: DataPointBuilder)
    ensures
        builder_content(r) == (PointContent {
            fields: builder_content(b).fields.insert(name@, PointField::Integer(value)),
            ..builder_content(b)
        }),
{
    b.field(name, value)
}

/// `DataPointBuilder::field` with a floating-point number sets a field, in
/// place of one of the same name, and keeps the rest. The number is read from
/// its decimal text, which gives the number closest to it.
#[verifier::external_body]
fn with_tenths(b: DataPointBuilder, name: &str, value: i16, text: &str) -> (r: DataPointBuilder)
    requires
        text@ == tenths_decimal(value as int),
    ensures
        builder_content(r) == (PointContent {
            fields: builder_content(b).fields.insert(name@, PointField::Tenths(value)),
            ..builder_content(b)
        }),
{
    b.field(name, FieldValue::F64(text.parse().unwrap()))
}

/// `DataPointBuilder::timestamp` sets the timestamp and keeps the rest.
#[verifier::external_body]
fn with_timestamp(b: DataPointBuilder, nanos: i64) -> (r: DataPointBuilder)
    ensures
        builder_content(r) == (PointContent { timestamp: Some(nanos), ..builder_content(b) }),
{
    b.timestamp(nanos)
}

/// `DataPointBuilder::build` finishes the point; it fails exactly where there
/// is no field.
#[verifier::external_body]
fn finish_point(b: DataPointBuilder) -> (r: Result<DataPoint, DataPointError>)
    ensures
        r is Err <==> builder_content(b).fields.is_empty(),
        r matches Ok(p) ==> point_content(p) == builder_content(b),
{
    b.build()
}

/// The unit that a value's point names.
pub open spec fn units(d: RegData) -> Seq<char> {
    match d {
        RegData::Bool(_) => "Bool"@,
        RegData::Watts(_) => "Watts"@,
        RegData::Percent(_) => "Percent"@,
        RegData::Hz(_) => "Hz"@,
        RegData::Volts(_) => "Volts"@,
    }
}

/// The number that a value's point holds.
pub open spec fn field_of(d: RegData) -> PointField {
    match d {
        RegData::Bool(v) => PointField::Integer(if v {
            1
        } else {
            0
        }),
        RegData::Watts(v) => PointField::Integer(v as i64),
        RegData::Percent(v) => PointField::Integer(v as i64),
        RegData::Hz(v) => PointField::Integer(v as i64),
        RegData::Volts(v) => PointField::Tenths(v),
    }
}

/// `tags` with each of `pairs` set in turn.
pub open spec fn tagged(
    tags: Map<Seq<char>, Seq<char>>,
    pairs: Seq<SettingsPair>,
) -> Map<Seq<char>, Seq<char>>
    decreases pairs.len(),
{
    if pairs.len() == 0 {
        tags
    } else {
        tagged(tags, pairs.drop_last()).insert(pairs.last().key@, pairs.last().val@)
    }
}

/// The point of the value `d` called `name`.
pub open spec fn content_of(
    name: Seq<char>,
    d: RegData,
    pairs: Seq<SettingsPair>,
    nanos: i64,
) -> PointContent {
    PointContent {
        measurement: name,
        tags: tagged(Map::empty().insert("units"@, units(d)), pairs),
        fields: Map::empty().insert("value"@, field_of(d)),
        timestamp: Some(nanos),
    }
}

/// What a client of the database has to be made with.
#[derive(Debug)]
pub struct InfluxLogin {
    pub url: String,
    pub org: String,
    pub token: String,
}

impl InfluxLogin {
    /// It is what `cfg` says.
    pub open spec fn is_for(self, cfg: InfluxSettings) -> bool {
        &&& self.url@ == cfg.url@
        &&& self.org@ == cfg.org@
        &&& self.token@ == cfg.token@
    }
}

/// A write to the database: the client to make first where there is none, the
/// bucket and the points.
#[derive(Debug)]
pub struct InfluxWrite {
    pub login: Option<InfluxLogin>,
    pub bucket: String,
    pub points: Vec<DataPoint>,
}

/// The database, as far as this side knows it.
#[derive(Debug)]
pub struct Influx {
    pub cfg: InfluxSettings,
    /// Whether there is a client.
    pub connected: bool,
}

impl Influx {
    /// A database without a client.
    pub fn new(cfg: &InfluxSettings) -> (r: Self)
        ensures
            r.cfg.same(*cfg),
            !r.connected,
    {
        Influx { cfg: cfg.clone(), connected: false }
    }

    /// The client to make; nothing where there is one, or where the database
    /// is switched off. What is asked for counts as made.
    pub fn connect(&mut self) -> (r: Option<InfluxLogin>)
        ensures
            r is Some <==> old(self).cfg.enable && !old(self).connected,
            r matches Some(login) ==> login.is_for(old(self).cfg),
            final(self).cfg == old(self).cfg,
            final(self).connected == (old(self).connected || old(self).cfg.enable),
    {
        if !self.cfg.enable || self.connected {
            return None;
        }
        self.connected = true;
        Some(
            InfluxLogin {
                url: self.cfg.url.clone(),
                org: self.cfg.org.clone(),
                token: self.cfg.token.clone(),
            },
        )
    }

    /// Drops the client.
    pub fn disconnect(&mut self)
        ensures
            final(self).cfg == old(self).cfg,
            !final(self).connected,
    {
        self.connected = false;
    }

    /// The point of one value.
    fn make_point(&self, name: &str, d: &RegData, nanos: i64) -> (r: DataPoint)
        ensures
            point_content(r) == content_of(name@, *d, self.cfg.tags@, nanos),
    {
        let point = start_point(name);
        let point = match *d {
            RegData::Bool(v) => with_integer(
                with_tag(point, "units", "Bool"),
                "value",
                if v {
                    1
                } else {
                    0
                },
            ),
            RegData::Watts(v) => with_integer(
                with_tag(point, "units", "Watts"),
                "value",
                v as i64,
            ),
            RegData::Percent(v) => with_integer(
                with_tag(point, "units", "Percent"),
                "value",
                v as i64,
            ),
            RegData::Hz(v) => with_integer(with_tag(point, "units", "Hz"), "value", v as i64),
            RegData::Volts(v) => with_tenths(
                with_tag(point, "units", "Volts"),
                "value",
                v,
                tenths_text(v as i32).as_str(),
            ),
        };
        let mut point = with_timestamp(point, nanos);
        let ghost base = builder_content(point);
        let mut i: usize = 0;
        assert(self.cfg.tags@.take(0) =~= Seq::empty());
        while i < self.cfg.tags.len()
            invariant
                i <= self.cfg.tags@.len(),
                builder_content(point) == (PointContent {
                    tags: tagged(base.tags, self.cfg.tags@.take(i as int)),
                    ..base
                }),
            decreases self.cfg.tags@.len() - i,
        {
            let tag = &self.cfg.tags[i];
            point = with_tag(point, tag.key.as_str(), tag.val.as_str());
            i += 1;
            assert(self.cfg.tags@.take(i as int).drop_last() =~= self.cfg.tags@.take(i - 1));
        }
        assert(self.cfg.tags@.take(i as int) =~= self.cfg.tags@);
        proof {
            assert(base.fields.contains_key("value"@));
            assert(builder_content(point) =~= content_of(name@, *d, self.cfg.tags@, nanos));
        }
        match finish_point(point) {
            Ok(p) => p,
            Err(_) => {
                assert(false);
                vstd::pervasive::unreached()
            },
        }
    }

    /// The write of a round of values: a point for each, with the name at its
    /// place and all with one timestamp in nanoseconds since the Unix epoch;
    /// nothing where the database is switched off. A name without a value, and
    /// a value without a name, has no point.
    pub fn write_point(
        &mut self,
        data: &Vec<RegData>,
        names: &Vec<String>,
        nanos: i64,
    ) -> (r: Option<InfluxWrite>)
        ensures
            final(self).cfg == old(self).cfg,
            final(self).connected == (old(self).connected || old(self).cfg.enable),
            r is Some <==> old(self).cfg.enable,
            r matches Some(write) ==> {
                let points = write.points;
                &&& write.login is Some <==> !old(self).connected
                &&& write.login matches Some(login) ==> login.is_for(old(self).cfg)
                &&& write.bucket@ == old(self).cfg.bucket@
                &&& points@.len() == if names@.len() < data@.len() {
                    names@.len()
                } else {
                    data@.len()
                }
                &&& forall|i: int|
                    0 <= i < points@.len() ==> point_content(#[trigger] points@[i]) == content_of(
                        names@[i]@,
                        data@[i],
                        old(self).cfg.tags@,
                        nanos,
                    )
                &&& forall|i: int|
                    0 <= i < points@.len() ==> {
                        let point = point_content(#[trigger] points@[i]);
                        &&& point.measurement == names@[i]@
                        &&& point.timestamp == Some(nanos)
                        &&& point.fields.dom() == set!["value"@]
                        &&& match data@[i] {
                            RegData::Bool(v) => point.fields["value"@] == PointField::Integer(
                                if v {
                                    1
                                } else {
                                    0
                                },
                            ),
                            RegData::Watts(v) => point.fields["value"@] == PointField::Integer(
                                v as i64,
                            ),
                            RegData::Percent(v) => point.fields["value"@] == PointField::Integer(
                                v as i64,
                            ),
                            RegData::Hz(v) => point.fields["value"@] == PointField::Integer(
                                v as i64,
                            ),
                            RegData::Volts(v) => point.fields["value"@] == PointField::Tenths(v),
                        }
                    }
            },
    {
        if !self.cfg.enable {
            return None;
        }
        let login = self.connect();
        let mut points: Vec<DataPoint> = Vec::new();
        let mut i: usize = 0;
        while i < names.len() && i < data.len()
            invariant
                i <= names@.len(),
                i <= data@.len(),
                points@.len() == i,
                forall|j: int|
                    0 <= j < i ==> point_content(#[trigger] points@[j]) == content_of(
                        names@[j]@,
                        data@[j],
                        self.cfg.tags@,
                        nanos,
                    ),
            decreases names@.len() - i,
        {
            points.push(self.make_point(names[i].as_str(), &data[i], nanos));
            i += 1;
        }
        proof {
            assert forall|j: int| 0 <= j < points@.len() implies point_content(
                #[trigger] points@[j],
            ).fields.dom() == set!["value"@] by {
                assert(point_content(points@[j]).fields.dom() =~= set!["value"@]);
            }
        }
        Some(InfluxWrite { login, bucket: self.cfg.bucket.clone(), points })
    }
}

/// The number that a point holds is the number that alerts compare.
pub proof fn a_point_holds_what_alerts_compare(d: RegData)
    ensures
        match field_of(d) {
            PointField::Integer(n) => 10 * n == d.tenths(),
            PointField::Tenths(n) => n as int == d.tenths(),
        },
{
}

/// The last of the configured tags with a given key is the one that a point
/// carries, whatever the point had under that key before; a key that is not
/// configured keeps what it had.
pub proof fn the_last_configured_tag_counts(
    tags: Map<Seq<char>, Seq<char>>,
    pairs: Seq<SettingsPair>,
    key: Seq<char>,
)
    ensures
        forall|i: int|
            0 <= i < pairs.len() && pairs[i].key@ == key && (forall|j: int|
                i < j < pairs.len() ==> pairs[j].key@ != key) ==> tagged(tags, pairs).contains_key(
                key,
            ) && tagged(tags, pairs)[key] == (#[trigger] pairs[i]).val@,
        (forall|i: int| 0 <= i < pairs.len() ==> (#[trigger] pairs[i]).key@ != key) ==> (tagged(
            tags,
            pairs,
        ).contains_key(key) == tags.contains_key(key) && tagged(tags, pairs)[key] == tags[key]),
    decreases pairs.len(),
{
    if pairs.len() > 0 {
        let rest = pairs.drop_last();
        the_last_configured_tag_counts(tags, rest, key);
        assert forall|i: int|
            0 <= i < pairs.len() && pairs[i].key@ == key && (forall|j: int|
                i < j < pairs.len() ==> pairs[j].key@ != key) implies tagged(
            tags,
            pairs,
        ).contains_key(key) && tagged(tags, pairs)[key] == (#[trigger] pairs[i]).val@ by {
            if i < rest.len() {
                assert(pairs[pairs.len() - 1].key@ != key);
                assert(rest[i] == pairs[i]);
                assert forall|j: int| i < j < rest.len() implies rest[j].key@ != key by {
                    assert(pairs[j].key@ != key);
                }
            }
        }
        if forall|i: int| 0 <= i < pairs.len() ==> (#[trigger] pairs[i]).key@ != key {
            assert forall|i: int| 0 <= i < rest.len() implies (#[trigger] rest[i]).key@ != key by {
                assert(pairs[i].key@ != key);
            }
            assert(pairs[pairs.len() - 1].key@ != key);
        }
    }
}

/// A point names its value, carries the timestamp of its write and the number
/// of its value, and no other field.
pub proof fn a_point_carries_its_value(
    name: Seq<char>,
    d: RegData,
    pairs: Seq<SettingsPair>,
    nanos: i64,
)
    ensures
        content_of(name, d, pairs, nanos).measurement == name,
        content_of(name, d, pairs, nanos).timestamp == Some(nanos),
        content_of(name, d, pairs, nanos).fields.dom() == set!["value"@],
        match d {
            RegData::Volts(v) => content_of(name, d, pairs, nanos).fields["value"@]
                == PointField::Tenths(v),
            RegData::Bool(v) => content_of(name, d, pairs, nanos).fields["value"@]
                == PointField::Integer(if v {
                1
            } else {
                0
            }),
            RegData::Watts(v) => content_of(name, d, pairs, nanos).fields["value"@]
                matches PointField::Integer(n) && n == v,
            RegData::Percent(v) => content_of(name, d, pairs, nanos).fields["value"@]
                matches PointField::Integer(n) && n == v,
            RegData::Hz(v) => content_of(name, d, pairs, nanos).fields["value"@]
                matches PointField::Integer(n) && n == v,
        },
{
    assert(content_of(name, d, pairs, nanos).fields.dom() =~= set!["value"@]);
}

/// A point carries the configured tags and its unit, and no other tag. Under a
/// key that is configured it has the value that is configured last; its unit
/// stands under `units` where that is not configured.
pub proof fn a_point_carries_its_tags(
    name: Seq<char>,
    d: RegData,
    pairs: Seq<SettingsPair>,
    nanos: i64,
    key: Seq<char>,
)
    ensures
        ({
            let tags = content_of(name, d, pairs, nanos).tags;
            let configured = exists|i: int|
                0 <= i < pairs.len() && (#[trigger] pairs[i]).key@ == key;
            &&& tags.contains_key(key) <==> configured || key == "units"@
            &&& forall|i: int|
                0 <= i < pairs.len() && pairs[i].key@ == key && (forall|j: int|
                    i < j < pairs.len() ==> pairs[j].key@ != key) ==> tags[key]
                    == (#[trigger] pairs[i]).val@
            &&& !configured && key == "units"@ ==> tags[key] == match d {
                RegData::Bool(_) => "Bool"@,
                RegData::Watts(_) => "Watts"@,
                RegData::Percent(_) => "Percent"@,
                RegData::Hz(_) => "Hz"@,
                RegData::Volts(_) => "Volts"@,
            }
        }),
{
    let start = Map::empty().insert("units"@, units(d));
    the_last_configured_tag_counts(start, pairs, key);
    if exists|i: int| 0 <= i < pairs.len() && (#[trigger] pairs[i]).key@ == key {
        let i = choose|i: int| 0 <= i < pairs.len() && (#[trigger] pairs[i]).key@ == key;
        let last = last_with_key(pairs, key, i);
        assert(pairs[last].key@ == key);
    }
}

/// The last place behind `i`, or `i` itself, at which `key` is configured.
proof fn last_with_key(pairs: Seq<SettingsPair>, key: Seq<char>, i: int) -> (last: int)
    requires
        0 <= i < pairs.len(),
        pairs[i].key@ == key,
    ensures
        i <= last < pairs.len(),
        pairs[last].key@ == key,
        forall|j: int| last < j < pairs.len() ==> pairs[j].key@ != key,
    decreases pairs.len() - i,
{
    if exists|j: int| i < j < pairs.len() && (#[trigger] pairs[j]).key@ == key {
        let j = choose|j: int| i < j < pairs.len() && (#[trigger] pairs[j]).key@ == key;
        last_with_key(pairs, key, j)
    } else {
        i
    }
}

/// A client is made with what the settings say.
pub proof fn a_login_is_what_the_settings_say(login: InfluxLogin, cfg: InfluxSettings)
    requires
        login.is_for(cfg),
    ensures
        login.url@ == cfg.url@,
        login.org@ == cfg.org@,
        login.token@ == cfg.token@,
{
}

/// Copied settings agree in every field.
pub proof fn the_same_settings_agree(a: InfluxSettings, b: InfluxSettings)
    requires
        a.same(b),
    ensures
        a.enable == b.enable,
        a.token@ == b.token@,
        a.bucket@ == b.bucket@,
        a.org@ == b.org@,
        a.url@ == b.url@,
        a.tags@ == b.tags@,
{
}

} // verus!
