//! Chart file discovery helpers and the resource references a chart
//! names: its audio track, its background and its per-note sound files.

use vstd::prelude::*;
use crate::model::Chart;
use crate::json::{JVal, JsonValue, jv, obj_view};
use crate::parser::obj_get;
use crate::error::CoreError;

verus! {

/// What a referenced resource is used for.
#[derive(Debug, Clone, Copy, PartialEq, Eq, Structural)]
pub enum ChartResourceType {
    Audio,
    Background,
    SoundEffect,
    Other,
}

/// One resource a chart refers to.
#[derive(Debug, Clone)]
pub struct ChartResource {
    pub path: String,
    pub resource_type: ChartResourceType,
}

/// View of a resource list.
pub open spec fn res_views(rs: Seq<ChartResource>) -> Seq<(Seq<char>, ChartResourceType)> {
    Seq::new(
        rs.len(),
        |i: int|
            if 0 <= i < rs.len() {
                (rs[i].path@, rs[i].resource_type)
            } else {
                (Seq::empty(), ChartResourceType::Other)
            },
    )
}

/// The string values among an object's members, in member order.
pub open spec fn str_values(ms: Seq<(Seq<char>, JVal)>) -> Seq<Seq<char>>
    decreases ms.len(),
{
    if ms.len() == 0 {
        Seq::empty()
    } else {
        str_values(ms.drop_last()) + (match ms.last().1 {
            JVal::Str(s) => seq![s],
            _ => Seq::<Seq<char>>::empty(),
        })
    }
}

/// The resources a chart names: its audio track, then its background,
/// then every sound file of the reconstructed ordinal table.
pub open spec fn resources_spec(c: Chart) -> Seq<(Seq<char>, ChartResourceType)> {
    let audio: Seq<(Seq<char>, ChartResourceType)> = match c.metadata.audio {
        Some(a) => seq![(a@, ChartResourceType::Audio)],
        None => Seq::empty(),
    };
    let bg: Seq<(Seq<char>, ChartResourceType)> = match c.metadata.background {
        Some(b) => seq![(b@, ChartResourceType::Background)],
        None => Seq::empty(),
    };
    let sounds: Seq<Seq<char>> = match obj_get(obj_view(c.custom_data@), "audio_files"@) {
        Some(JVal::Obj(fs)) => str_values(fs),
        _ => Seq::empty(),
    };
    audio + bg + Seq::new(sounds.len(), |i: int|
        if 0 <= i < sounds.len() {
            (sounds[i], ChartResourceType::SoundEffect)
        } else {
            (Seq::empty(), ChartResourceType::SoundEffect)
        })
}

/// Whether a file name carries the chart-file suffix.
pub open spec fn is_chart_name(name: Seq<char>) -> bool {
    name.len() >= 3 && name.subrange(name.len() - 3, name.len() as int) == ".mc"@
}

/// Loads charts from their files; the pure parts of discovery live
/// here.
#[derive(Debug)]
pub struct ChartLoader;

impl ChartLoader {
    /// A loader.
    pub fn new() -> (r: ChartLoader)
    {
        ChartLoader
    }

    /// Whether a file name carries the chart-file suffix.
    pub fn is_chart_file(&self, name: &str) -> (r: bool)
        ensures
            r == is_chart_name(name@),
    {
        let cs = crate::parser::collect_chars(name);
        if cs.len() < 3 {
            return false;
        }
        let n = cs.len();
        let ok = cs[n - 3] == '.' && cs[n - 2] == 'm' && cs[n - 1] == 'c';
        proof {
            reveal_strlit(".mc");
            if ok {
                assert(name@.subrange(name@.len() - 3, name@.len() as int) =~= ".mc"@);
            } else {
                assert(name@.subrange(name@.len() - 3, name@.len() as int) != ".mc"@) by {
                    if name@.subrange(name@.len() - 3, name@.len() as int) == ".mc"@ {
                        assert(name@.subrange(name@.len() - 3, name@.len() as int)[0] == '.');
                        assert(name@.subrange(name@.len() - 3, name@.len() as int)[1] == 'm');
                        assert(name@.subrange(name@.len() - 3, name@.len() as int)[2] == 'c');
                    }
                }
            }
        }
        ok
    }

    /// The resources the chart names, in a fixed order: audio, then
    /// background, then each note-ordinal sound file.
    pub fn extract_chart_resources(&self, chart: &Chart) -> (r: Result<
        Vec<ChartResource>,
        CoreError,
    >)
        ensures
            r is Ok,
            (match r {
                Ok(v) => res_views(v@) == resources_spec(*chart),
                Err(_) => false,
            }),
    {
        let mut out: Vec<ChartResource> = Vec::new();
        match &chart.metadata.audio {
            Some(a) => {
                out.push(
                    ChartResource { path: a.clone(), resource_type: ChartResourceType::Audio },
                );
            },
            None => {},
        }
        match &chart.metadata.background {
            Some(b) => {
                out.push(
                    ChartResource {
                        path: b.clone(),
                        resource_type: ChartResourceType::Background,
                    },
                );
            },
            None => {},
        }
        let ghost prefix = res_views(out@);
        let key = String::from_str("audio_files");
        let found = crate::parser::obj_member(&chart.custom_data, &key);
        match found {
            Some(JsonValue::Obj(fs)) => {
                let mut i: usize = 0;
                proof {
                    assert(obj_view(fs@).take(0) =~= Seq::<(Seq<char>, JVal)>::empty());
                    assert(res_views(out@) =~= prefix + Seq::<(
                        Seq<char>,
                        ChartResourceType,
                    )>::empty());
                }
                while i < fs.len()
                    invariant
                        i <= fs@.len(),
                        res_views(out@) =~= prefix + Seq::new(
                            str_values(obj_view(fs@).take(i as int)).len(),
                            |k: int|
                                if 0 <= k < str_values(obj_view(fs@).take(i as int)).len() {
                                    (
                                        str_values(obj_view(fs@).take(i as int))[k],
                                        ChartResourceType::SoundEffect,
                                    )
                                } else {
                                    (Seq::empty(), ChartResourceType::SoundEffect)
                                },
                        ),
                    decreases fs@.len() - i,
                {
                    proof {
                        assert(obj_view(fs@).take(i as int + 1).drop_last() =~= obj_view(
                            fs@,
                        ).take(i as int));
                        assert(obj_view(fs@).take(i as int + 1).last() == (
                            fs@[i as int].0@,
                            jv(fs@[i as int].1),
                        ));
                    }
                    let ghost svo = str_values(obj_view(fs@).take(i as int));
                    let ghost out_old = out@;
                    match &fs[i].1 {
                        JsonValue::Str(s) => {
                            out.push(
                                ChartResource {
                                    path: s.clone(),
                                    resource_type: ChartResourceType::SoundEffect,
                                },
                            );
                            proof {
                                assert(str_values(obj_view(fs@).take(i as int + 1)) =~= svo.push(
                                    s@,
                                ));
                                assert(res_views(out@) =~= res_views(out_old).push(
                                    (s@, ChartResourceType::SoundEffect),
                                ));
                            }
                        },
                        _ => {
                            proof {
                                assert(str_values(obj_view(fs@).take(i as int + 1)) =~= svo);
                            }
                        },
                    }
                    proof {
                        assert(res_views(out@) =~= prefix + Seq::new(
                            str_values(obj_view(fs@).take(i as int + 1)).len(),
                            |k: int|
                                if 0 <= k < str_values(
                                    obj_view(fs@).take(i as int + 1),
                                ).len() {
                                    (
                                        str_values(obj_view(fs@).take(i as int + 1))[k],
                                        ChartResourceType::SoundEffect,
                                    )
                                } else {
                                    (Seq::empty(), ChartResourceType::SoundEffect)
                                },
                        ));
                    }
                    i = i + 1;
                }
                proof {
                    assert(obj_view(fs@).take(fs@.len() as int) =~= obj_view(fs@));
                    assert(res_views(out@) =~= resources_spec(*chart));
                }
            },
            _ => {
                proof {
                    assert(res_views(out@) =~= resources_spec(*chart));
                }
            },
        }
        Ok(out)
    }
}

} // verus!
