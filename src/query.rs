//! Results of an instant query against a telemetry service.

use vstd::prelude::*;

verus! {

/// The label set of a result entry. Label values that are not strings are kept as `None`.
pub enum Metric {
    Object(Vec<(String, Option<String>)>),
    NotObject,
}

/// A sample: its timestamp as written by the service, and its value as text.
pub struct VectorValue {
    pub time: String,
    pub sample: String,
}

impl VectorValue {
    /// The timestamp and the sample value.
    pub fn get_time_sample_pair(&self) -> (r: (&String, &String))
        ensures
            *r.0 == self.time,
            *r.1 == self.sample,
    {
        (&self.time, &self.sample)
    }
}

/// One entry of a result: labels and a sample.
pub struct VectorResult {
    pub metric: Metric,
    pub value: VectorValue,
}

impl VectorResult {
    /// The labels and the sample of the entry.
    pub fn get_metric_value_pair(&self) -> (r: (&Metric, &VectorValue))
        ensures
            *r.0 == self.metric,
            *r.1 == self.value,
    {
        (&self.metric, &self.value)
    }
}

pub enum QueryData {
    Matrix(Vec<Vec<VectorResult>>),
    Vector(Vec<VectorResult>),
}

pub struct QuerySuccess {
    pub data: QueryData,
    pub warnings: Option<Vec<String>>,
}

impl QuerySuccess {
    pub fn data(&self) -> (r: &QueryData)
        ensures
            *r == self.data,
    {
        &self.data
    }
}

pub struct QueryError {
    pub error_type: String,
    pub error: String,
    pub warnings: Option<Vec<String>>,
}

pub enum QueryResult {
    Success(QuerySuccess),
    Error(QueryError),
}

/// The name of the label that carries a release version.
pub open spec fn version_label() -> Seq<char> {
    seq!['v', 'e', 'r', 's', 'i', 'o', 'n']
}

/// The value of the first `version` label, when that value is a string.
pub open spec fn labels_version(labels: Seq<(String, Option<String>)>) -> Option<Seq<char>>
    decreases labels.len(),
{
    if labels.len() == 0 {
        None
    } else if labels[0].0@ == version_label() {
        match labels[0].1 {
            Some(v) => Some(v@),
            None => None,
        }
    } else {
        labels_version(labels.skip(1))
    }
}

/// The version an entry speaks of; `None` for a malformed entry.
pub open spec fn metric_version(m: Metric) -> Option<Seq<char>> {
    match m {
        Metric::Object(labels) => labels_version(labels@),
        Metric::NotObject => None,
    }
}

proof fn lemma_labels_version_scan(labels: Seq<(String, Option<String>)>, i: int)
    requires
        0 <= i < labels.len(),
        forall|j: int| 0 <= j < i ==> labels[j].0@ != version_label(),
    ensures
        labels_version(labels) == labels_version(labels.skip(i)),
    decreases i,
{
    if i > 0 {
        assert(labels.skip(1).skip(i - 1) =~= labels.skip(i));
        assert forall|j: int| 0 <= j < i - 1 implies labels.skip(1)[j].0@ != version_label() by {
            assert(labels.skip(1)[j] == labels[j + 1]);
        }
        lemma_labels_version_scan(labels.skip(1), i - 1);
    } else {
        assert(labels.skip(0) =~= labels);
    }
}

proof fn lemma_labels_version_none(labels: Seq<(String, Option<String>)>)
    requires
        forall|j: int| 0 <= j < labels.len() ==> labels[j].0@ != version_label(),
    ensures
        labels_version(labels) is None,
    decreases labels.len(),
{
    if labels.len() > 0 {
        assert forall|j: int| 0 <= j < labels.len() - 1 implies labels.skip(1)[j].0@ != version_label() by {
            assert(labels.skip(1)[j] == labels[j + 1]);
        }
        lemma_labels_version_none(labels.skip(1));
    }
}

impl Metric {
    /// The version label of a well-formed entry: the labels form an object and the first
    /// `version` label holds a string.
    pub fn version(&self) -> (r: Option<&String>)
        ensures
            match r {
                Some(v) => metric_version(*self) == Some(v@),
                None => metric_version(*self) is None,
            },
    {
        match self {
            Metric::Object(labels) => {
                let wanted: String = "version".to_owned();
                proof {
                    reveal_strlit("version");
                    assert(wanted@ =~= version_label());
                }
                let mut i: usize = 0;
                while i < labels.len()
                    invariant
                        i <= labels.len(),
                        wanted@ == version_label(),
                        metric_version(*self) == labels_version(labels@),
                        forall|j: int| 0 <= j < i ==> labels@[j].0@ != version_label(),
                    decreases labels.len() - i,
                {
                    if labels[i].0 == wanted {
                        proof {
                            lemma_labels_version_scan(labels@, i as int);
                            let rest = labels@.skip(i as int);
                            assert(rest[0] == labels@[i as int]);
                            assert(rest.len() > 0);
                            assert(rest[0].0@ == version_label());
                            assert(labels_version(rest) == match rest[0].1 {
                                Some(v) => Some(v@),
                                None => None::<Seq<char>>,
                            });
                        }
                        assert(metric_version(*self) == labels_version(labels@));
                        let found = &labels[i].1;
                        assert(*found == labels@[i as int].1);
                        return match found {
                            Some(v) => Some(v),
                            None => None,
                        };
                    }
                    i = i + 1;
                }
                proof {
                    lemma_labels_version_none(labels@);
                }
                None
            },
            Metric::NotObject => None,
        }
    }
}

} // verus!
