use vstd::prelude::*;
use crate::adapter::Adapter;
use crate::decimal::{spec_parse_decimal, Decimal};
use crate::error::AdapterError;
use crate::json::{
    json_as_array, json_as_number, json_as_str, json_error_message, json_from_str, json_get,
    json_is_object, json_number_token, json_doc, json_model_of, seq_model, JsonModel,
};
use crate::metric::JsonMetric;
use crate::results::{from_pairs_post, AdapterResults};
use crate::units::{spec_time_as_nanos, spec_units_from_tag, time_as_nanos, Units};

verus! {

/// Parser for the Google-style benchmark JSON format.
pub struct AdapterCppGoogle;

/// A schema element whose contents carry no information for normalization;
/// any object satisfies it.
#[derive(Debug, Clone, Copy, PartialEq, Eq, Structural)]
pub struct JsonEmpty {}

/// Intermediate structure mirroring the format's top-level schema; owned
/// transiently by the parser and discarded once converted.
#[derive(Debug, Clone)]
pub struct Google {
    pub context: Context,
    pub benchmarks: Vec<Benchmark>,
}

/// The format's machine context: a list of cache descriptions, required by
/// the schema though carrying nothing the normalization needs.
#[derive(Debug, Clone)]
pub struct Context {
    pub caches: Vec<JsonEmpty>,
}

/// One reported benchmark entry: its tool-native name, measured time, and
/// unit tag.
#[derive(Debug, Clone)]
pub struct Benchmark {
    pub name: String,
    pub real_time: Decimal,
    pub time_unit: Units,
}

impl Benchmark {
    pub open spec fn wf(self) -> bool {
        self.real_time.compact()
    }
}

impl Google {
    pub open spec fn wf(self) -> bool {
        forall|i: int| 0 <= i < self.benchmarks@.len() ==> (#[trigger] self.benchmarks@[i]).wf()
    }
}

/// Every cache description is an object.
pub open spec fn caches_ok(cs: Seq<JsonModel>) -> bool {
    forall|i: int| 0 <= i < cs.len() ==> (#[trigger] cs[i]) is Obj
}

/// The format's machine context: an object holding a `caches` array of
/// objects.
pub open spec fn context_shape(m: JsonModel) -> bool {
    match m {
        JsonModel::Obj(cf) => cf.contains_key("caches"@) && match cf["caches"@] {
            JsonModel::Arr(cs) => caches_ok(cs),
            _ => false,
        },
        _ => false,
    }
}

/// One reported entry of the schema: an object with a string `name`, a
/// numeric `real_time` whose token is a representable decimal, and a known
/// `time_unit` tag. It denotes the raw name paired with the converted,
/// bound-free record.
pub open spec fn benchmark_shape(m: JsonModel) -> Option<(Seq<char>, JsonMetric)> {
    match m {
        JsonModel::Obj(f) => {
            if f.contains_key("name"@) && f.contains_key("real_time"@) && f.contains_key(
                "time_unit"@,
            ) {
                match (f["name"@], f["real_time"@], f["time_unit"@]) {
                    (JsonModel::Text(name), JsonModel::Num(tok), JsonModel::Text(tag)) => {
                        match (spec_parse_decimal(tok), spec_units_from_tag(tag)) {
                            (Some(d), Some(u)) => Some(
                                (
                                    name,
                                    JsonMetric {
                                        value: spec_time_as_nanos(d, u),
                                        lower_bound: None,
                                        upper_bound: None,
                                    },
                                ),
                            ),
                            _ => None,
                        }
                    },
                    _ => None,
                }
            } else {
                None
            }
        },
        _ => None,
    }
}

/// The format's whole schema, and what a document meeting it denotes: the
/// pair sequence of its entries, in document order.
pub open spec fn google_shape(m: JsonModel) -> Option<Seq<(Seq<char>, JsonMetric)>> {
    match m {
        JsonModel::Obj(f) => {
            if f.contains_key("context"@) && context_shape(f["context"@]) && f.contains_key(
                "benchmarks"@,
            ) {
                match f["benchmarks"@] {
                    JsonModel::Arr(es) => {
                        if forall|k: int|
                            0 <= k < es.len() ==> (#[trigger] benchmark_shape(es[k])) is Some {
                            Some(Seq::new(es.len(), |k: int| benchmark_shape(es[k])->Some_0))
                        } else {
                            None
                        }
                    },
                    _ => None,
                }
            } else {
                None
            }
        },
        _ => None,
    }
}

fn deser_error(msg: &str) -> (r: AdapterError)
    ensures
        r matches AdapterError::Deserialization(_),
{
    AdapterError::Deserialization(String::from_str(msg))
}

/// Deserializes raw text against the format's schema: a top-level object
/// with a `context` holding `caches`, and a `benchmarks` list whose entries
/// each report `name`, `real_time` and `time_unit`. Entries come back in
/// document order; exactly the documents outside the schema are a
/// deserialization error.
fn google_from_str(input: &str) -> (r: Result<Google, AdapterError>)
    ensures
        r matches Ok(g) ==> g.wf(),
        r matches Err(e) ==> e matches AdapterError::Deserialization(_),
        json_doc(input@) is None ==> r is Err,
        json_doc(input@) matches Some(m) ==> (match google_shape(m) {
            Some(ps) => (r matches Ok(g) && google_pairs(g) == ps),
            None => r is Err,
        }),
{
    let doc = match json_from_str(input) {
        Ok(v) => v,
        Err(e) => {
            return Err(AdapterError::Deserialization(json_error_message(&e)));
        },
    };
    let ghost dm: JsonModel = json_model_of(doc);
    let ctx = match json_get(&doc, "context") {
        Some(v) => v,
        None => {
            assert(google_shape(dm) is None);
            return Err(deser_error("missing field `context`"));
        },
    };
    let ghost cm: JsonModel = json_model_of(*ctx);
    let caches_v = match json_get(ctx, "caches") {
        Some(v) => v,
        None => {
            assert(!context_shape(cm));
            assert(google_shape(dm) is None);
            return Err(deser_error("missing field `caches` in `context`"));
        },
    };
    let caches_arr = match json_as_array(caches_v) {
        Some(a) => a,
        None => {
            assert(!context_shape(cm));
            assert(google_shape(dm) is None);
            return Err(deser_error("field `caches` is not an array"));
        },
    };
    let ghost gcs: Seq<JsonModel> = seq_model(caches_arr@);
    let mut caches: Vec<JsonEmpty> = Vec::new();
    let mut ci: usize = 0;
    while ci < caches_arr.len()
        invariant
            json_doc(input@) == Some(dm),
            dm matches JsonModel::Obj(f) && (f.contains_key("context"@) && f["context"@] == cm),
            cm matches JsonModel::Obj(cf) && (cf.contains_key("caches"@) && cf["caches"@]
                == JsonModel::Arr(gcs)),
            gcs == seq_model(caches_arr@),
            0 <= ci <= caches_arr@.len(),
            forall|k: int| 0 <= k < ci ==> (#[trigger] gcs[k]) is Obj,
        decreases caches_arr@.len() - ci,
    {
        if !json_is_object(&caches_arr[ci]) {
            proof {
                assert(gcs[ci as int] == json_model_of(caches_arr@[ci as int]));
                assert(!caches_ok(gcs));
                assert(!context_shape(cm));
                assert(google_shape(dm) is None);
            }
            return Err(deser_error("entry of `caches` is not an object"));
        }
        proof {
            assert(gcs[ci as int] == json_model_of(caches_arr@[ci as int]));
        }
        caches.push(JsonEmpty {  });
        ci = ci + 1;
    }
    assert(caches_ok(gcs));
    assert(context_shape(cm));
    let benches_v = match json_get(&doc, "benchmarks") {
        Some(v) => v,
        None => {
            assert(google_shape(dm) is None);
            return Err(deser_error("missing field `benchmarks`"));
        },
    };
    let arr = match json_as_array(benches_v) {
        Some(a) => a,
        None => {
            assert(google_shape(dm) is None);
            return Err(deser_error("field `benchmarks` is not an array"));
        },
    };
    let ghost ges: Seq<JsonModel> = seq_model(arr@);
    let mut benchmarks: Vec<Benchmark> = Vec::new();
    let mut i: usize = 0;
    while i < arr.len()
        invariant
            json_doc(input@) == Some(dm),
            dm matches JsonModel::Obj(f) && (f.contains_key("context"@) && (context_shape(
                f["context"@],
            ) && (f.contains_key("benchmarks"@) && f["benchmarks"@] == JsonModel::Arr(ges)))),
            ges == seq_model(arr@),
            0 <= i <= arr@.len(),
            benchmarks@.len() == i,
            forall|k: int| 0 <= k < benchmarks@.len() ==> (#[trigger] benchmarks@[k]).wf(),
            forall|k: int|
                #![auto]
                0 <= k < i ==> benchmark_shape(ges[k]) == Some(
                    (
                        benchmarks@[k].name@,
                        JsonMetric {
                            value: spec_time_as_nanos(
                                benchmarks@[k].real_time,
                                benchmarks@[k].time_unit,
                            ),
                            lower_bound: None,
                            upper_bound: None,
                        },
                    ),
                ),
        decreases arr@.len() - i,
    {
        let entry = &arr[i];
        proof {
            assert(ges[i as int] == json_model_of(arr@[i as int]));
        }
        let ghost em: JsonModel = ges[i as int];
        let name_v = match json_get(entry, "name") {
            Some(v) => v,
            None => {
                proof {
                    assert(benchmark_shape(em) is None);
                    assert(google_shape(dm) is None);
                }
                return Err(deser_error("missing field `name`"));
            },
        };
        let name_s = match json_as_str(name_v) {
            Some(s) => s,
            None => {
                proof {
                    assert(benchmark_shape(em) is None);
                    assert(google_shape(dm) is None);
                }
                return Err(deser_error("field `name` is not a string"));
            },
        };
        let rt_v = match json_get(entry, "real_time") {
            Some(v) => v,
            None => {
                proof {
                    assert(benchmark_shape(em) is None);
                    assert(google_shape(dm) is None);
                }
                return Err(deser_error("missing field `real_time`"));
            },
        };
        let rt_n = match json_as_number(rt_v) {
            Some(n) => n,
            None => {
                proof {
                    assert(benchmark_shape(em) is None);
                    assert(google_shape(dm) is None);
                }
                return Err(deser_error("field `real_time` is not a number"));
            },
        };
        let token = json_number_token(rt_n);
        let real_time = match Decimal::parse(token.as_str()) {
            Some(d) => d,
            None => {
                proof {
                    assert(benchmark_shape(em) is None);
                    assert(google_shape(dm) is None);
                }
                return Err(deser_error("field `real_time` is not a representable decimal"));
            },
        };
        let tu_v = match json_get(entry, "time_unit") {
            Some(v) => v,
            None => {
                proof {
                    assert(benchmark_shape(em) is None);
                    assert(google_shape(dm) is None);
                }
                return Err(deser_error("missing field `time_unit`"));
            },
        };
        let tu_s = match json_as_str(tu_v) {
            Some(s) => s,
            None => {
                proof {
                    assert(benchmark_shape(em) is None);
                    assert(google_shape(dm) is None);
                }
                return Err(deser_error("field `time_unit` is not a string"));
            },
        };
        let time_unit = match Units::from_tag(tu_s) {
            Some(u) => u,
            None => {
                proof {
                    assert(benchmark_shape(em) is None);
                    assert(google_shape(dm) is None);
                }
                return Err(deser_error("unknown `time_unit`"));
            },
        };
        let b = Benchmark { name: String::from_str(name_s), real_time, time_unit };
        proof {
            assert(benchmark_shape(em) == Some(
                (
                    b.name@,
                    JsonMetric {
                        value: spec_time_as_nanos(b.real_time, b.time_unit),
                        lower_bound: None,
                        upper_bound: None,
                    },
                ),
            ));
        }
        benchmarks.push(b);
        i = i + 1;
    }
    let g = Google { context: Context { caches }, benchmarks };
    proof {
        assert(google_shape(dm) == Some(
            Seq::new(ges.len(), |k: int| benchmark_shape(ges[k])->Some_0),
        ));
        assert(google_pairs(g) =~= Seq::new(
            ges.len(),
            |k: int| benchmark_shape(ges[k])->Some_0,
        ));
    }
    Ok(g)
}

/// The pair sequence a source structure denotes: each reported value
/// converted to nanoseconds with no bounds, paired with its raw name, in
/// document order.
pub open spec fn google_pairs(g: Google) -> Seq<(Seq<char>, JsonMetric)> {
    g.benchmarks@.map(
        |i: int, b: Benchmark|
            (
                b.name@,
                JsonMetric {
                    value: spec_time_as_nanos(b.real_time, b.time_unit),
                    lower_bound: None::<Decimal>,
                    upper_bound: None::<Decimal>,
                },
            ),
    )
}

impl AdapterResults {
    /// Normalizes a deserialized source structure: converts every reported
    /// value to nanoseconds, validates every name, and builds the collection
    /// under the duplicate-rejection rule, failing fast.
    pub fn try_from(google: Google) -> (r: Result<AdapterResults, AdapterError>)
        requires
            google.wf(),
        ensures
            from_pairs_post(google_pairs(google), r),
    {
        let ghost gg: Google = google;
        let n: usize = google.benchmarks.len();
        let mut benchmark_metrics: Vec<(String, JsonMetric)> = Vec::new();
        let mut i: usize = 0;
        while i < n
            invariant
                gg == google,
                gg.wf(),
                n == gg.benchmarks@.len(),
                0 <= i <= n,
                benchmark_metrics@.len() == i,
                benchmark_metrics@.map(|k: int, p: (String, JsonMetric)| (p.0@, p.1))
                    =~= google_pairs(gg).take(i as int),
                forall|k: int|
                    0 <= k < benchmark_metrics@.len() ==> (#[trigger] benchmark_metrics@[
                        k
                    ]).1.wf(),
            decreases n - i,
        {
            let b = &google.benchmarks[i];
            let value = time_as_nanos(b.real_time, b.time_unit);
            let json_metric = JsonMetric { value, lower_bound: None, upper_bound: None };
            benchmark_metrics.push((b.name.clone(), json_metric));
            proof {
                assert(benchmark_metrics@.map(|k: int, p: (String, JsonMetric)| (p.0@, p.1))
                    =~= google_pairs(gg).take(i + 1));
            }
            i = i + 1;
        }
        proof {
            assert(google_pairs(gg).take(n as int) =~= google_pairs(gg));
        }
        AdapterResults::from_pairs(benchmark_metrics)
    }
}

/// Parses Google-style benchmark JSON end to end. The result is fixed for
/// every input, up to the named outcomes of the JSON crate: a text that is
/// no JSON document, or one outside the format's schema, is a
/// deserialization error; a document meeting the schema is normalized
/// exactly as its pair sequence demands, fail-fast.
pub fn parse_google(input: &str) -> (r: Result<AdapterResults, AdapterError>)
    ensures
        r matches Ok(c) ==> c.wf(),
        json_doc(input@) is None ==> (r matches Err(e) && (
        e matches AdapterError::Deserialization(_))),
        json_doc(input@) matches Some(m) ==> (match google_shape(m) {
            Some(ps) => from_pairs_post(ps, r),
            None => (r matches Err(e) && (e matches AdapterError::Deserialization(_))),
        }),
        r matches Err(e) ==> ((e matches AdapterError::Deserialization(_)) || (
        e matches AdapterError::Validation(_)) || (
        e matches AdapterError::DuplicateBenchmarkName(_))),
{
    match google_from_str(input) {
        Ok(google) => {
            let ghost gg: Google = google;
            AdapterResults::try_from(google)
        },
        Err(e) => Err(e),
    }
}

/// Parses raw bytes of Google-style benchmark output: decodes them as
/// UTF-8 and hands the text to the format parser; undecodable bytes are an
/// encoding error, and decoded text is parsed under the same contract as
/// the text entry point.
pub fn parse_google_bytes(bytes: &Vec<u8>) -> (r: Result<AdapterResults, AdapterError>)
    ensures
        r matches Ok(c) ==> c.wf(),
        crate::encoding::utf8_chars(bytes@) is None <==> (r matches Err(e) && (
        e matches AdapterError::Encoding(_))),
        crate::encoding::utf8_chars(bytes@) matches Some(t) ==> (json_doc(t) is None ==> (
        r matches Err(e) && (e matches AdapterError::Deserialization(_)))),
        crate::encoding::utf8_chars(bytes@) matches Some(t) ==> (json_doc(t) matches Some(m)
            ==> (match google_shape(m) {
            Some(ps) => from_pairs_post(ps, r),
            None => (r matches Err(e) && (e matches AdapterError::Deserialization(_))),
        })),
{
    match crate::encoding::decode_utf8(bytes) {
        Ok(text) => parse_google(text.as_str()),
        Err(e) => Err(e),
    }
}

impl Adapter for AdapterCppGoogle {
    /// What this format's parse fixes for every input.
    open spec fn parse_post(input: Seq<char>, r: Result<AdapterResults, AdapterError>) -> bool {
        &&& (json_doc(input) is None ==> (r matches Err(e) && (
        e matches AdapterError::Deserialization(_))))
        &&& (json_doc(input) matches Some(m) ==> (match google_shape(m) {
            Some(ps) => from_pairs_post(ps, r),
            None => (r matches Err(e) && (e matches AdapterError::Deserialization(_))),
        }))
    }

    /// Dispatch entry point for this format.
    fn parse(input: &str) -> (r: Result<AdapterResults, AdapterError>) {
        parse_google(input)
    }
}

} // verus!
