//! The metadata of a file, looked up from its standard keywords according
//! to its version, and the whole of TEXT read into a standard structure.
use vstd::prelude::*;

use crate::config::StdTextReadConfig;
use crate::datetime::{FCSDate, FCSDateTime, FCSTime, FCSTime100, FCSTime60, ModifiedDateTime};
use crate::kwstate::FromKeyword;
use crate::header::Version;
use crate::kwstate::{
    fails_spec, has_key, key_ready, lemma_read_same, lemma_ready_after, names_distinct, read_from, state_keys,
    state_values, KwState, Measurement, StdTEXTErrors,
};
use crate::rawtext::RawTEXT;
use crate::values::{
    AlphaNumType, ByteOrd, Endian, Mode, Mode3_2, OptionalKw, Originality, Shortname, Trigger,
    Unicode,
};

verus! {

/// `$BTIM`, `$ETIM` and `$DATE`, with the time type of a version.
#[derive(Clone, Debug)]
pub struct Timestamps<T> {
    pub btim: OptionalKw<T>,
    pub etim: OptionalKw<T>,
    pub date: OptionalKw<FCSDate>,
}

/// Looks up the optional timestamps.
pub fn lookup_timestamps<T: FromKeyword>(st: &mut KwState) -> (r: Timestamps<T>)
    ensures
        final(st).missing@ == old(st).missing@,
        final(st).meta_errors@ == old(st).meta_errors@,
        state_keys(final(st).standard@) == state_keys(old(st).standard@),
        state_values(final(st).standard@) == state_values(old(st).standard@),
        final(st).standard@.len() == old(st).standard@.len(),
        key_ready::<T>(old(st).standard@, "$BTIM"@) ==> r.btim is Present,
        key_ready::<T>(old(st).standard@, "$ETIM"@) ==> r.etim is Present,
        key_ready::<FCSDate>(old(st).standard@, "$DATE"@) ==> r.date is Present,
        r.btim matches OptionalKw::Present(v) ==> read_from::<T>(old(st).standard@, "$BTIM"@, v),
        r.etim matches OptionalKw::Present(v) ==> read_from::<T>(old(st).standard@, "$ETIM"@, v),
        r.date matches OptionalKw::Present(v) ==> read_from::<FCSDate>(old(st).standard@, "$DATE"@, v),
{
    let ghost s0 = st.standard@;
    proof {
        reveal_strlit("$BTIM");
        reveal_strlit("$ETIM");
        reveal_strlit("$DATE");
        assert("$BTIM"@[1] != "$ETIM"@[1]);
        assert("$BTIM"@[1] != "$DATE"@[1]);
        assert("$ETIM"@[1] != "$DATE"@[1]);
        lemma_ready_after::<T>(s0, s0, "$ETIM"@, "$BTIM"@);
    }
    let btim = st.lookup_optional::<T>("$BTIM", false);
    let ghost s1 = st.standard@;
    proof {
        lemma_ready_after::<T>(s0, s1, "$ETIM"@, "$BTIM"@);
        lemma_ready_after::<FCSDate>(s0, s1, "$DATE"@, "$BTIM"@);
    }
    let etim = st.lookup_optional::<T>("$ETIM", false);
    let ghost s2 = st.standard@;
    proof {
        lemma_ready_after::<FCSDate>(s1, s2, "$DATE"@, "$ETIM"@);
        if let OptionalKw::Present(v) = &etim {
            lemma_read_same::<T>(s0, s1, "$ETIM"@, *v);
        }
    }
    let date = st.lookup_optional::<FCSDate>("$DATE", false);
    proof {
        if let OptionalKw::Present(v) = date {
            lemma_read_same::<FCSDate>(s0, s2, "$DATE"@, v);
        }
    }
    Timestamps { btim, etim, date }
}

/// The keywords that only some versions have.
#[derive(Clone, Debug)]
pub enum VersionedMetadata {
    V2_0 { mode: Mode, byteord: ByteOrd, cyt: OptionalKw<String>, timestamps: Timestamps<FCSTime> },
    V3_0 {
        mode: Mode,
        byteord: ByteOrd,
        cyt: OptionalKw<String>,
        cytsn: OptionalKw<String>,
        unicode: OptionalKw<Unicode>,
        timestamps: Timestamps<FCSTime60>,
    },
    V3_1 {
        mode: Mode,
        byteord: Endian,
        cyt: OptionalKw<String>,
        cytsn: OptionalKw<String>,
        originality: OptionalKw<Originality>,
        last_modified: OptionalKw<ModifiedDateTime>,
        last_modifier: OptionalKw<String>,
        plateid: OptionalKw<String>,
        platename: OptionalKw<String>,
        wellid: OptionalKw<String>,
        timestamps: Timestamps<FCSTime100>,
    },
    V3_2 {
        mode: OptionalKw<Mode3_2>,
        byteord: Endian,
        cyt: String,
        cytsn: OptionalKw<String>,
        originality: OptionalKw<Originality>,
        last_modified: OptionalKw<ModifiedDateTime>,
        flowrate: OptionalKw<String>,
        timestamps: Timestamps<FCSTime100>,
        begin_datetime: OptionalKw<FCSDateTime>,
        end_datetime: OptionalKw<FCSDateTime>,
        last_modifier: OptionalKw<String>,
        plateid: OptionalKw<String>,
        platename: OptionalKw<String>,
        wellid: OptionalKw<String>,
        carrierid: OptionalKw<String>,
        carriertype: OptionalKw<String>,
        locationid: OptionalKw<String>,
        /// `$UNSTAINEDCENTERS`: names and their centers.
        unstained_centers: OptionalKw<crate::values::UnstainedCenters>,
        unstained_info: OptionalKw<String>,
    },
}

/// The metadata common to all versions, and the versioned part.
#[derive(Clone, Debug)]
pub struct Metadata {
    pub datatype: AlphaNumType,
    pub abrt: OptionalKw<u32>,
    pub com: OptionalKw<String>,
    pub cells: OptionalKw<String>,
    pub exp: OptionalKw<String>,
    pub fil: OptionalKw<String>,
    pub inst: OptionalKw<String>,
    pub lost: OptionalKw<u32>,
    pub op: OptionalKw<String>,
    pub proj: OptionalKw<String>,
    pub smno: OptionalKw<String>,
    pub src: OptionalKw<String>,
    pub sys: OptionalKw<String>,
    pub tr: OptionalKw<Trigger>,
    /// `$TIMESTEP`, as written: a float.
    pub timestep: OptionalKw<String>,
    /// `$COMP` (3.0).
    pub comp: OptionalKw<crate::values::Compensation>,
    /// `$SPILLOVER` (3.1+).
    pub spillover: OptionalKw<crate::values::Spillover>,
    /// `$VOL` (3.1+), as written: a float.
    pub vol: OptionalKw<String>,
    pub specific: VersionedMetadata,
}

/// Whether versioned metadata belongs to a version.
pub open spec fn metadata_version(m: VersionedMetadata) -> Version {
    match m {
        VersionedMetadata::V2_0 { .. } => Version::FCS2_0,
        VersionedMetadata::V3_0 { .. } => Version::FCS3_0,
        VersionedMetadata::V3_1 { .. } => Version::FCS3_1,
        VersionedMetadata::V3_2 { .. } => Version::FCS3_2,
    }
}

/// The required versioned keys are present, unread and readable.
pub open spec fn specific_ready(st: Seq<(String, crate::kwstate::KwValue)>, version: Version) -> bool {
    match version {
        Version::FCS2_0 | Version::FCS3_0 => key_ready::<Mode>(st, "$MODE"@) && key_ready::<ByteOrd>(
            st,
            "$BYTEORD"@,
        ),
        Version::FCS3_1 => key_ready::<Mode>(st, "$MODE"@) && key_ready::<Endian>(st, "$BYTEORD"@),
        Version::FCS3_2 => key_ready::<Endian>(st, "$BYTEORD"@) && key_ready::<String>(st, "$CYT"@),
    }
}

/// The required versioned fields are the values read from their keys.
pub open spec fn specific_read(st: Seq<(String, crate::kwstate::KwValue)>, m: VersionedMetadata) -> bool {
    match m {
        VersionedMetadata::V2_0 { mode, byteord, .. } => read_from::<Mode>(st, "$MODE"@, mode)
            && read_from::<ByteOrd>(st, "$BYTEORD"@, byteord),
        VersionedMetadata::V3_0 { mode, byteord, .. } => read_from::<Mode>(st, "$MODE"@, mode)
            && read_from::<ByteOrd>(st, "$BYTEORD"@, byteord),
        VersionedMetadata::V3_1 { mode, byteord, .. } => read_from::<Mode>(st, "$MODE"@, mode)
            && read_from::<Endian>(st, "$BYTEORD"@, byteord),
        VersionedMetadata::V3_2 { byteord, cyt, .. } => read_from::<Endian>(st, "$BYTEORD"@, byteord)
            && read_from::<String>(st, "$CYT"@, cyt),
    }
}

proof fn lemma_key_literals()
    ensures
        "$MODE"@ != "$BYTEORD"@,
        "$MODE"@ != "$CYT"@,
        "$BYTEORD"@ != "$CYT"@,
        "$DATATYPE"@ != "$MODE"@,
        "$DATATYPE"@ != "$BYTEORD"@,
        "$DATATYPE"@ != "$CYT"@,
{
    reveal_strlit("$MODE");
    reveal_strlit("$BYTEORD");
    reveal_strlit("$CYT");
    reveal_strlit("$DATATYPE");
    assert("$MODE"@.len() != "$BYTEORD"@.len());
    assert("$MODE"@.len() != "$CYT"@.len());
    assert("$BYTEORD"@.len() != "$CYT"@.len());
    assert("$DATATYPE"@.len() != "$MODE"@.len());
    assert("$DATATYPE"@[2] != "$BYTEORD"@[2]);
    assert("$DATATYPE"@.len() != "$CYT"@.len());
}

/// Looks up the keywords that only some versions have. `$BYTEORD` is an
/// endianness from 3.1 on; `$CYT` is required in 3.2, where `$MODE` is
/// optional and deprecated.
pub fn lookup_specific(st: &mut KwState, version: Version) -> (r: Option<VersionedMetadata>)
    ensures
        specific_ready(old(st).standard@, version) ==> r is Some,
        r matches Some(m) ==> metadata_version(m) == version && specific_read(old(st).standard@, m),
        state_keys(final(st).standard@) == state_keys(old(st).standard@),
        state_values(final(st).standard@) == state_values(old(st).standard@),
        final(st).standard@.len() == old(st).standard@.len(),
        final(st).meta_errors@ == old(st).meta_errors@,
        crate::kwstate::missing_ok(old(st).missing@, state_keys(old(st).standard@))
            ==> crate::kwstate::missing_ok(final(st).missing@, state_keys(old(st).standard@)),
        r matches Some(VersionedMetadata::V3_2 { unstained_centers, .. }) ==> (!has_key(
            old(st).standard@,
            "$UNSTAINEDCENTERS"@,
        ) ==> unstained_centers is Absent),
{
    let ghost s0 = st.standard@;
    proof {
        lemma_key_literals();
    }
    match version {
        Version::FCS2_0 => {
            let mode = st.lookup_required::<Mode>("$MODE", false);
            let ghost s1 = st.standard@;
            proof {
                lemma_ready_after::<ByteOrd>(s0, s1, "$BYTEORD"@, "$MODE"@);
            }
            let byteord = st.lookup_required::<ByteOrd>("$BYTEORD", false);
            let ghost s2 = st.standard@;
            proof {
                if let Some(x) = mode {
                    lemma_read_same::<Mode>(s0, s2, "$MODE"@, x);
                }
                if let Some(x) = &byteord {
                    lemma_read_same::<ByteOrd>(s0, s1, "$BYTEORD"@, *x);
                }
            }
            let cyt = st.lookup_optional::<String>("$CYT", false);
            let timestamps = lookup_timestamps::<FCSTime>(st);
            match (mode, byteord) {
                (Some(mode), Some(byteord)) => Some(VersionedMetadata::V2_0 { mode, byteord, cyt, timestamps }),
                _ => None,
            }
        },
        Version::FCS3_0 => {
            let mode = st.lookup_required::<Mode>("$MODE", false);
            let ghost s1 = st.standard@;
            proof {
                lemma_ready_after::<ByteOrd>(s0, s1, "$BYTEORD"@, "$MODE"@);
            }
            let byteord = st.lookup_required::<ByteOrd>("$BYTEORD", false);
            let ghost s2 = st.standard@;
            proof {
                if let Some(x) = mode {
                    lemma_read_same::<Mode>(s0, s2, "$MODE"@, x);
                }
                if let Some(x) = &byteord {
                    lemma_read_same::<ByteOrd>(s0, s1, "$BYTEORD"@, *x);
                }
            }
            let cyt = st.lookup_optional::<String>("$CYT", false);
            let cytsn = st.lookup_optional::<String>("$CYTSN", false);
            let unicode = st.lookup_optional::<Unicode>("$UNICODE", false);
            let timestamps = lookup_timestamps::<FCSTime60>(st);
            match (mode, byteord) {
                (Some(mode), Some(byteord)) => Some(
                    VersionedMetadata::V3_0 { mode, byteord, cyt, cytsn, unicode, timestamps },
                ),
                _ => None,
            }
        },
        Version::FCS3_1 => {
            let mode = st.lookup_required::<Mode>("$MODE", false);
            let ghost s1 = st.standard@;
            proof {
                lemma_ready_after::<Endian>(s0, s1, "$BYTEORD"@, "$MODE"@);
            }
            let byteord = st.lookup_required::<Endian>("$BYTEORD", false);
            proof {
                if let Some(x) = mode {
                    lemma_read_same::<Mode>(s0, st.standard@, "$MODE"@, x);
                }
                if let Some(x) = byteord {
                    lemma_read_same::<Endian>(s0, s1, "$BYTEORD"@, x);
                }
            }
            let cyt = st.lookup_optional::<String>("$CYT", false);
            let cytsn = st.lookup_optional::<String>("$CYTSN", false);
            let originality = st.lookup_optional::<Originality>("$ORIGINALITY", false);
            let last_modified = st.lookup_optional::<ModifiedDateTime>("$LAST_MODIFIED", false);
            let last_modifier = st.lookup_optional::<String>("$LAST_MODIFIER", false);
            let plateid = st.lookup_optional::<String>("$PLATEID", false);
            let platename = st.lookup_optional::<String>("$PLATENAME", false);
            let wellid = st.lookup_optional::<String>("$WELLID", false);
            let timestamps = lookup_timestamps::<FCSTime100>(st);
            match (mode, byteord) {
                (Some(mode), Some(byteord)) => Some(
                    VersionedMetadata::V3_1 {
                        mode,
                        byteord,
                        cyt,
                        cytsn,
                        originality,
                        last_modified,
                        last_modifier,
                        plateid,
                        platename,
                        wellid,
                        timestamps,
                    },
                ),
                _ => None,
            }
        },
        Version::FCS3_2 => {
            let mode = st.lookup_optional::<Mode3_2>("$MODE", true);
            let ghost s1 = st.standard@;
            proof {
                lemma_ready_after::<Endian>(s0, s1, "$BYTEORD"@, "$MODE"@);
                lemma_ready_after::<String>(s0, s1, "$CYT"@, "$MODE"@);
            }
            let byteord = st.lookup_required::<Endian>("$BYTEORD", false);
            let ghost s2 = st.standard@;
            proof {
                lemma_ready_after::<String>(s1, s2, "$CYT"@, "$BYTEORD"@);
            }
            let cyt = st.lookup_required::<String>("$CYT", false);
            proof {
                if let Some(x) = byteord {
                    lemma_read_same::<Endian>(s0, s1, "$BYTEORD"@, x);
                }
                if let Some(x) = &cyt {
                    lemma_read_same::<String>(s0, s2, "$CYT"@, *x);
                }
            }
            let cytsn = st.lookup_optional::<String>("$CYTSN", false);
            let originality = st.lookup_optional::<Originality>("$ORIGINALITY", false);
            let flowrate = st.lookup_optional::<String>("$FLOWRATE", false);
            let last_modified = st.lookup_optional::<ModifiedDateTime>("$LAST_MODIFIED", false);
            let timestamps = lookup_timestamps::<FCSTime100>(st);
            let begin_datetime = st.lookup_optional::<FCSDateTime>("$BEGINDATETIME", false);
            let end_datetime = st.lookup_optional::<FCSDateTime>("$ENDDATETIME", false);
            let last_modifier = st.lookup_optional::<String>("$LAST_MODIFIER", false);
            let plateid = st.lookup_optional::<String>("$PLATEID", false);
            let platename = st.lookup_optional::<String>("$PLATENAME", false);
            let wellid = st.lookup_optional::<String>("$WELLID", false);
            let carrierid = st.lookup_optional::<String>("$CARRIERID", false);
            let carriertype = st.lookup_optional::<String>("$CARRIERTYPE", false);
            let locationid = st.lookup_optional::<String>("$LOCATIONID", false);
            proof {
                crate::kwstate::lemma_has_key_same(s0, st.standard@, "$UNSTAINEDCENTERS"@);
            }
            let unstained_centers = st.lookup_optional::<crate::values::UnstainedCenters>("$UNSTAINEDCENTERS", false);
            let unstained_info = st.lookup_optional::<String>("$UNSTAINEDINFO", false);
            match (&begin_datetime, &end_datetime) {
                (OptionalKw::Present(b), OptionalKw::Present(e)) => {
                    if !crate::datetime::not_after(b, e) {
                        st.push_meta_error_or_warning(
                            false,
                            crate::textbuf::string_from_chars(
                                &crate::textbuf::chars_of("$BEGINDATETIME is after $ENDDATETIME"),
                            ),
                        );
                    }
                },
                _ => {},
            }
            match (byteord, cyt) {
                (Some(byteord), Some(cyt)) => Some(
                    VersionedMetadata::V3_2 {
                        mode,
                        byteord,
                        cyt,
                        cytsn,
                        originality,
                        last_modified,
                        flowrate,
                        timestamps,
                        begin_datetime,
                        end_datetime,
                        last_modifier,
                        plateid,
                        platename,
                        wellid,
                        carrierid,
                        carriertype,
                        locationid,
                        unstained_centers,
                        unstained_info,
                    },
                ),
                _ => None,
            }
        },
    }
}

/// A measurement whose short name is the given text.
pub open spec fn has_name(m: Measurement, name: Seq<char>) -> bool {
    match m.shortname {
        Some(n) => n.0@ == name,
        None => false,
    }
}

/// Some measurement has the name.
pub open spec fn name_present(ms: Seq<Measurement>, name: Seq<char>) -> bool {
    exists|j: int| 0 <= j < ms.len() && has_name(#[trigger] ms[j], name)
}

/// Every name is the short name of some measurement.
pub open spec fn names_in(names: Seq<Seq<char>>, ms: Seq<Measurement>) -> bool {
    forall|i: int| 0 <= i < names.len() ==> #[trigger] name_present(ms, names[i])
}

fn name_exists(name: &str, ms: &Vec<Measurement>) -> (r: bool)
    ensures
        r == name_present(ms@, name@),
{
    let mut j: usize = 0;
    while j < ms.len()
        invariant
            j <= ms@.len(),
            forall|q: int| 0 <= q < j ==> !has_name(#[trigger] ms@[q], name@),
        decreases ms@.len() - j,
    {
        match &ms[j].shortname {
            Some(n) => {
                if crate::textbuf::str_eq(n.0.as_str(), name) {
                    return true;
                }
            },
            None => {},
        }
        j = j + 1;
    }
    false
}

/// Whether every name is the short name of some measurement.
pub fn names_exist(names: &Vec<String>, ms: &Vec<Measurement>) -> (r: bool)
    ensures
        r == names_in(crate::fields::views(names@), ms@),
{
    let mut i: usize = 0;
    while i < names.len()
        invariant
            i <= names@.len(),
            forall|q: int| 0 <= q < i ==> #[trigger] name_present(ms@, crate::fields::views(names@)[q]),
        decreases names@.len() - i,
    {
        if !name_exists(names[i].as_str(), ms) {
            assert(crate::fields::views(names@)[i as int] == names@[i as int]@);
            return false;
        }
        assert(crate::fields::views(names@)[i as int] == names@[i as int]@);
        i = i + 1;
    }
    assert(crate::fields::views(names@).len() == names@.len());
    true
}

/// The short names of the measurements that have one.
fn measurement_names(ms: &Vec<Measurement>) -> Vec<Shortname> {
    let mut out: Vec<Shortname> = Vec::new();
    let mut i: usize = 0;
    while i < ms.len()
        invariant
            i <= ms@.len(),
        decreases ms@.len() - i,
    {
        match &ms[i].shortname {
            Some(n) => out.push(Shortname::new_unchecked(n.as_str())),
            None => {},
        }
        i = i + 1;
    }
    out
}

/// Looks up the metadata: `$DATATYPE` and the versioned keywords are
/// required; the rest are optional. A trigger that names no measurement is
/// an error.
pub fn lookup_metadata(st: &mut KwState, version: Version, ms: &Vec<Measurement>) -> (r: Option<Metadata>)
    ensures
        r matches Some(m) ==> metadata_version(m.specific) == version && read_from::<AlphaNumType>(
            old(st).standard@,
            "$DATATYPE"@,
            m.datatype,
        ) && specific_read(old(st).standard@, m.specific) && (m.spillover matches OptionalKw::Present(x)
            ==> names_in(crate::fields::views(x.measurements@), ms@)) && (m.specific matches VersionedMetadata::V3_2 {
            unstained_centers: OptionalKw::Present(u),
            ..
        } ==> names_in(crate::fields::views(u.names@), ms@)),
        (key_ready::<AlphaNumType>(old(st).standard@, "$DATATYPE"@) && specific_ready(old(st).standard@, version)
            && !has_key(old(st).standard@, "$TR"@) && !has_key(old(st).standard@, "$SPILLOVER"@) && !has_key(
            old(st).standard@,
            "$UNSTAINEDCENTERS"@,
        )) ==> r is Some,
        state_keys(final(st).standard@) == state_keys(old(st).standard@),
        state_values(final(st).standard@) == state_values(old(st).standard@),
        final(st).standard@.len() == old(st).standard@.len(),
        crate::kwstate::missing_ok(old(st).missing@, state_keys(old(st).standard@))
            ==> crate::kwstate::missing_ok(final(st).missing@, state_keys(old(st).standard@)),
{
    let ghost s0 = st.standard@;
    proof {
        lemma_key_literals();
    }
    let datatype = st.lookup_required::<AlphaNumType>("$DATATYPE", false);
    let ghost s1 = st.standard@;
    proof {
        lemma_ready_after::<Mode>(s0, s1, "$MODE"@, "$DATATYPE"@);
        lemma_ready_after::<ByteOrd>(s0, s1, "$BYTEORD"@, "$DATATYPE"@);
        lemma_ready_after::<Endian>(s0, s1, "$BYTEORD"@, "$DATATYPE"@);
        lemma_ready_after::<String>(s0, s1, "$CYT"@, "$DATATYPE"@);
        crate::kwstate::lemma_has_key_same(s0, s1, "$UNSTAINEDCENTERS"@);
    }
    let specific = lookup_specific(st, version);
    proof {
        if let Some(m) = &specific {
            match m {
                VersionedMetadata::V2_0 { mode, byteord, .. } => {
                    lemma_read_same::<Mode>(s0, s1, "$MODE"@, *mode);
                    lemma_read_same::<ByteOrd>(s0, s1, "$BYTEORD"@, *byteord);
                },
                VersionedMetadata::V3_0 { mode, byteord, .. } => {
                    lemma_read_same::<Mode>(s0, s1, "$MODE"@, *mode);
                    lemma_read_same::<ByteOrd>(s0, s1, "$BYTEORD"@, *byteord);
                },
                VersionedMetadata::V3_1 { mode, byteord, .. } => {
                    lemma_read_same::<Mode>(s0, s1, "$MODE"@, *mode);
                    lemma_read_same::<Endian>(s0, s1, "$BYTEORD"@, *byteord);
                },
                VersionedMetadata::V3_2 { byteord, cyt, .. } => {
                    lemma_read_same::<Endian>(s0, s1, "$BYTEORD"@, *byteord);
                    lemma_read_same::<String>(s0, s1, "$CYT"@, *cyt);
                },
            }
        }
    }
    let abrt = st.lookup_optional::<u32>("$ABRT", false);
    let com = st.lookup_optional::<String>("$COM", false);
    let cells = st.lookup_optional::<String>("$CELLS", false);
    let exp = st.lookup_optional::<String>("$EXP", false);
    let fil = st.lookup_optional::<String>("$FIL", false);
    let inst = st.lookup_optional::<String>("$INST", false);
    let lost = st.lookup_optional::<u32>("$LOST", false);
    let op = st.lookup_optional::<String>("$OP", false);
    let proj = st.lookup_optional::<String>("$PROJ", false);
    let smno = st.lookup_optional::<String>("$SMNO", false);
    let src = st.lookup_optional::<String>("$SRC", false);
    let sys = st.lookup_optional::<String>("$SYS", false);
    proof {
        crate::kwstate::lemma_has_key_same(s0, st.standard@, "$TR"@);
    }
    let tr = st.lookup_optional::<Trigger>("$TR", false);
    let timestep = st.lookup_optional::<String>("$TIMESTEP", false);
    let comp = match version {
        Version::FCS3_0 => st.lookup_optional::<crate::values::Compensation>("$COMP", false),
        _ => OptionalKw::Absent,
    };
    proof {
        crate::kwstate::lemma_has_key_same(s0, st.standard@, "$SPILLOVER"@);
    }
    let spillover = match version {
        Version::FCS3_1 | Version::FCS3_2 => st.lookup_optional::<crate::values::Spillover>("$SPILLOVER", false),
        _ => OptionalKw::Absent,
    };
    let _nextdata = st.lookup_optional::<u32>("$NEXTDATA", false);
    let vol = match version {
        Version::FCS3_1 | Version::FCS3_2 => st.lookup_optional::<String>("$VOL", false),
        _ => OptionalKw::Absent,
    };
    let names = measurement_names(ms);
    let tr_ok = match &tr {
        OptionalKw::Present(t) => st.check_trigger(t, &names),
        OptionalKw::Absent => true,
    };
    let spill_ok = match &spillover {
        OptionalKw::Present(x) => names_exist(&x.measurements, ms),
        OptionalKw::Absent => true,
    };
    if !spill_ok {
        st.push_meta_error_or_warning(
            true,
            crate::textbuf::string_from_chars(
                &crate::textbuf::chars_of("$SPILLOVER names a measurement that does not exist"),
            ),
        );
    }
    let unstained_ok = match &specific {
        Some(VersionedMetadata::V3_2 { unstained_centers: OptionalKw::Present(u), .. }) => names_exist(&u.names, ms),
        _ => true,
    };
    if !unstained_ok {
        st.push_meta_error_or_warning(
            true,
            crate::textbuf::string_from_chars(
                &crate::textbuf::chars_of("$UNSTAINEDCENTERS names a measurement that does not exist"),
            ),
        );
    }
    proof {
        if let Some(d) = datatype {
            lemma_read_same::<AlphaNumType>(s0, s1, "$DATATYPE"@, d);
        }
    }
    match (datatype, specific) {
        (Some(datatype), Some(specific)) => {
            if tr_ok && spill_ok && unstained_ok {
                Some(
                    Metadata {
                        datatype,
                        abrt,
                        com,
                        cells,
                        exp,
                        fil,
                        inst,
                        lost,
                        op,
                        proj,
                        smno,
                        src,
                        sys,
                        tr,
                        timestep,
                        comp,
                        spillover,
                        vol,
                        specific,
                    },
                )
            } else {
                None
            }
        },
        _ => None,
    }
}

fn push_time_issue(st: &mut KwState, is_error: bool, what: &str)
    ensures
        final(st).meta_errors@.len() == old(st).meta_errors@.len() + b2i(is_error),
        final(st).meta_warnings@.len() == old(st).meta_warnings@.len() + b2i(!is_error),
        final(st).standard@ == old(st).standard@,
        final(st).missing@ == old(st).missing@,
{
    let mut v: Vec<char> = Vec::new();
    crate::textbuf::push_str(&mut v, "time channel: ");
    crate::textbuf::push_str(&mut v, what);
    st.push_meta_error_or_warning(is_error, crate::textbuf::string_from_chars(&v));
}

pub open spec fn b2i(b: bool) -> int {
    if b {
        1
    } else {
        0
    }
}

/// The position of the first measurement with a name, or -1.
pub open spec fn time_index(ms: Seq<Measurement>, name: Seq<char>) -> int
    decreases ms.len(),
{
    if ms.len() == 0 {
        -1
    } else {
        let r = time_index(ms.drop_last(), name);
        if r >= 0 {
            r
        } else if has_name(ms.last(), name) {
            ms.len() - 1
        } else {
            -1
        }
    }
}

pub open spec fn scale_issue(m: Measurement) -> bool {
    m.scale matches OptionalKw::Present(e) && !crate::values::is_linear_scale_text(e@)
}

pub open spec fn gain_issue(m: Measurement) -> bool {
    m.gain matches OptionalKw::Present(g) && !crate::values::is_one_text(g@)
}

/// Checks the time channel named in the configuration: that it exists, that
/// `$TIMESTEP` is given, that its `$PnE` is `0,0` and that its `$PnG` is
/// absent or one. Each check that fails is an error where the configuration
/// asks for it, and a warning otherwise; a missing channel is an error only
/// where the configuration asks for it.
pub fn check_time_channel(
    st: &mut KwState,
    conf: &crate::config::TimeConfig,
    ms: &Vec<Measurement>,
    timestep: &OptionalKw<String>,
)
    ensures
        final(st).standard@ == old(st).standard@,
        final(st).missing@ == old(st).missing@,
        match conf.shortname {
            None => final(st).meta_errors@.len() == old(st).meta_errors@.len()
                && final(st).meta_warnings@.len() == old(st).meta_warnings@.len(),
            Some(name) => {
                let k = time_index(ms@, name@);
                if k < 0 {
                    final(st).meta_errors@.len() == old(st).meta_errors@.len() + b2i(conf.ensure)
                        && final(st).meta_warnings@.len() == old(st).meta_warnings@.len()
                } else {
                    let ts = timestep is Absent;
                    let sc = scale_issue(ms@[k]);
                    let gn = gain_issue(ms@[k]);
                    &&& final(st).meta_errors@.len() == old(st).meta_errors@.len() + b2i(ts && conf.ensure_timestep)
                        + b2i(sc && conf.ensure_linear) + b2i(gn && conf.ensure_nogain)
                    &&& final(st).meta_warnings@.len() == old(st).meta_warnings@.len() + b2i(ts && !conf.ensure_timestep)
                        + b2i(sc && !conf.ensure_linear) + b2i(gn && !conf.ensure_nogain)
                }
            },
        },
{
    let name = match &conf.shortname {
        Some(n) => n,
        None => {
            return;
        },
    };
    let mut found: Option<usize> = None;
    let mut i: usize = 0;
    while i < ms.len()
        invariant
            i <= ms@.len(),
            match found {
                Some(k) => k < i && time_index(ms@.subrange(0, i as int), name@) == k,
                None => time_index(ms@.subrange(0, i as int), name@) == -1,
            },
        decreases ms@.len() - i,
    {
        assert(ms@.subrange(0, i + 1).drop_last() =~= ms@.subrange(0, i as int));
        assert(ms@.subrange(0, i + 1).last() == ms@[i as int]);
        match &ms[i].shortname {
            Some(n) => {
                if found.is_none() && crate::textbuf::str_eq(n.0.as_str(), name.as_str()) {
                    found = Some(i);
                }
            },
            None => {},
        }
        i = i + 1;
    }
    assert(ms@.subrange(0, ms@.len() as int) =~= ms@);
    match found {
        None => {
            if conf.ensure {
                push_time_issue(st, true, "no measurement has the configured name");
            }
        },
        Some(k) => {
            let m = &ms[k];
            if matches!(timestep, OptionalKw::Absent) {
                push_time_issue(st, conf.ensure_timestep, "$TIMESTEP is missing");
            }
            match &m.scale {
                OptionalKw::Present(e) => {
                    if !crate::values::linear_scale_text(e.as_str()) {
                        push_time_issue(st, conf.ensure_linear, "$PnE is not 0,0");
                    }
                },
                OptionalKw::Absent => {},
            }
            match &m.gain {
                OptionalKw::Present(g) => {
                    if !crate::values::one_text(g.as_str()) {
                        push_time_issue(st, conf.ensure_nogain, "$PnG is present and not 1");
                    }
                },
                OptionalKw::Absent => {},
            }
        },
    }
}

/// A key among raw pairs.
pub open spec fn raw_has_key(ps: Seq<(String, String)>, k: Seq<char>) -> bool {
    exists|j: int| 0 <= j < ps.len() && (#[trigger] ps[j]).0@ == k
}

/// `v` is read from some raw pair of key `k`.
pub open spec fn raw_read_from<V: FromKeyword>(ps: Seq<(String, String)>, k: Seq<char>, v: V) -> bool {
    exists|j: int| 0 <= j < ps.len() && (#[trigger] ps[j]).0@ == k && V::kw_parsed(ps[j].1@, v)
}

pub open spec fn state_of_raw(ps: Seq<(String, String)>, st: Seq<(String, crate::kwstate::KwValue)>) -> bool {
    &&& st.len() == ps.len()
    &&& forall|i: int| 0 <= i < st.len() ==> (#[trigger] st[i]).0@ == ps[i].0@ && st[i].1.value@ == ps[i].1@
}

proof fn lemma_raw_bridge_key(ps: Seq<(String, String)>, st: Seq<(String, crate::kwstate::KwValue)>, k: Seq<char>)
    requires
        state_of_raw(ps, st),
    ensures
        has_key(st, k) == raw_has_key(ps, k),
{
    if has_key(st, k) {
        let j = choose|j: int| 0 <= j < st.len() && (#[trigger] st[j]).0@ == k;
        assert(ps[j].0@ == k);
    }
    if raw_has_key(ps, k) {
        let j = choose|j: int| 0 <= j < ps.len() && (#[trigger] ps[j]).0@ == k;
        assert(st[j].0@ == k);
    }
}

proof fn lemma_raw_bridge<V: FromKeyword>(ps: Seq<(String, String)>, st: Seq<(String, crate::kwstate::KwValue)>, k: Seq<char>, v: V)
    requires
        state_of_raw(ps, st),
    ensures
        read_from::<V>(st, k, v) == raw_read_from::<V>(ps, k, v),
{
    if read_from::<V>(st, k, v) {
        let j = choose|j: int| 0 <= j < st.len() && (#[trigger] st[j]).0@ == k && V::kw_parsed(st[j].1.value@, v);
        assert(ps[j].0@ == k);
    }
    if raw_read_from::<V>(ps, k, v) {
        let j = choose|j: int| 0 <= j < ps.len() && (#[trigger] ps[j]).0@ == k && V::kw_parsed(ps[j].1@, v);
        assert(st[j].0@ == k);
    }
}

fn copy_pairs(ps: &Vec<(String, String)>) -> (r: Vec<(String, String)>)
    ensures
        crate::rawtext::pair_views(r@) == crate::rawtext::pair_views(ps@),
{
    let mut out: Vec<(String, String)> = Vec::new();
    let mut i: usize = 0;
    while i < ps.len()
        invariant
            i <= ps@.len(),
            crate::rawtext::pair_views(out@) == crate::rawtext::pair_views(ps@.subrange(0, i as int)),
        decreases ps@.len() - i,
    {
        let ghost before = out@;
        let k = crate::textbuf::string_from_chars(&crate::textbuf::chars_of(ps[i].0.as_str()));
        let v = crate::textbuf::string_from_chars(&crate::textbuf::chars_of(ps[i].1.as_str()));
        out.push((k, v));
        assert(crate::rawtext::pair_views(out@) =~= crate::rawtext::pair_views(before).push((ps@[i as int].0@, ps@[i as int].1@)));
        assert(crate::rawtext::pair_views(ps@.subrange(0, i + 1)) =~= crate::rawtext::pair_views(ps@.subrange(0, i as int)).push((ps@[i as int].0@, ps@[i as int].1@)));
        i = i + 1;
    }
    assert(ps@.subrange(0, ps@.len() as int) =~= ps@);
    out
}

/// TEXT read into its standard structure.
pub struct ParsedTEXT {
    pub version: Version,
    pub par: usize,
    pub tot: Option<u32>,
    pub metadata: Metadata,
    pub measurements: Vec<Measurement>,
    /// What went wrong but did not make the parse fail.
    pub errors: StdTEXTErrors,
    /// Nonstandard keywords grouped under each measurement by the configured
    /// pattern, when there is one.
    pub measurement_nonstandard: Vec<Vec<(String, String)>>,
}

/// Reads the standard keywords of TEXT for a version: `$PAR`, the
/// measurements, `$TOT` (required from 3.0 on) and the metadata. Fails with
/// the errors found when a required keyword is missing or unreadable, when
/// keywords contradict each other, or when the configuration refuses a
/// kind of diagnostic that was raised.
pub fn std_text(raw: &RawTEXT, version: Version, conf: &StdTextReadConfig, warnings_are_errors: bool) -> (r: Result<
    ParsedTEXT,
    StdTEXTErrors,
>)
    ensures
        r matches Ok(p) ==> p.version == version && p.measurements@.len() == p.par && names_distinct(
            p.measurements@,
        ) && metadata_version(p.metadata.specific) == version && !fails_spec(p.errors, *conf, warnings_are_errors)
            && raw_read_from::<usize>(raw.standard@, "$PAR"@, p.par) && raw_read_from::<AlphaNumType>(
            raw.standard@,
            "$DATATYPE"@,
            p.metadata.datatype,
        ),
        r matches Err(e) ==> fails_spec(e, *conf, warnings_are_errors) && crate::kwstate::missing_ok(
            e.missing_keywords@,
            raw.standard@.map_values(|p: (String, String)| p.0@),
        ),
        !raw_has_key(raw.standard@, "$PAR"@) ==> r is Err,
        !raw_has_key(raw.standard@, "$DATATYPE"@) ==> r is Err,
{
    let mut st = raw.to_state();
    let ghost s0 = st.standard@;
    proof {
        assert(state_keys(s0) =~= raw.standard@.map_values(|p: (String, String)| p.0@));
        assert(crate::kwstate::missing_ok(st.missing@, state_keys(s0)));
        lemma_raw_bridge_key(raw.standard@, s0, "$PAR"@);
        lemma_raw_bridge_key(raw.standard@, s0, "$DATATYPE"@);
    }
    let par = st.lookup_required::<usize>("$PAR", false);
    proof {
        if let Some(n) = par {
            lemma_raw_bridge::<usize>(raw.standard@, s0, "$PAR"@, n);
        }
    }
    let ms = match par {
        Some(n) => st.lookup_measurements(n, version),
        None => None,
    };
    let tot = match version {
        Version::FCS2_0 => st.lookup_optional::<u32>("$TOT", false).into_option(),
        _ => st.lookup_required::<u32>("$TOT", false),
    };
    let empty: Vec<Measurement> = Vec::new();
    let ghost s3 = st.standard@;
    proof {
        crate::kwstate::lemma_has_key_same(s0, s3, "$DATATYPE"@);
    }
    let metadata = match &ms {
        Some(m) => lookup_metadata(&mut st, version, m),
        None => lookup_metadata(&mut st, version, &empty),
    };
    match (&ms, &metadata) {
        (Some(m), Some(md)) => {
            match version {
                Version::FCS2_0 => {},
                _ => check_time_channel(&mut st, &conf.time, m, &md.timestep),
            }
        },
        _ => {},
    }
    proof {
        if let Some(md) = &metadata {
            lemma_read_same::<AlphaNumType>(s0, s3, "$DATATYPE"@, md.datatype);
            lemma_raw_bridge::<AlphaNumType>(raw.standard@, s0, "$DATATYPE"@, md.datatype);
        }
    }
    let mut groups: Vec<Vec<(String, String)>> = Vec::new();
    match (&conf.nonstandard_measurement_pattern, &ms) {
        (Some(pattern), Some(m)) => {
            let pool = copy_pairs(&st.nonstandard);
            match crate::nonstandard::group_nonstandard(pattern.as_str(), m.len() as u64, pool) {
                Ok(g) => {
                    groups = g.groups;
                    st.nonstandard = g.rest;
                },
                Err(e) => {
                    st.meta_errors.push(e);
                },
            }
        },
        _ => {},
    }
    let complete = match (par, &ms, &metadata) {
        (Some(_), Some(_), Some(_)) => true,
        _ => false,
    };
    if !complete && st.meta_errors.len() == 0 && st.missing.len() == 0 {
        st.meta_errors.push(crate::textbuf::string_from_chars(&crate::textbuf::chars_of("TEXT could not be read into its standard keywords")));
    }
    let errors = st.into_errors();
    if errors.fails(conf, warnings_are_errors) || !complete {
        return Err(errors);
    }
    match (par, ms, metadata) {
        (Some(par), Some(measurements), Some(metadata)) => Ok(
            ParsedTEXT { version, par, tot, metadata, measurements, errors, measurement_nonstandard: groups },
        ),
        _ => Err(errors),
    }
}

} // verus!
