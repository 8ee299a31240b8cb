//! The Python names and imports that differ between Airflow 2 and
//! Airflow 3.
use vstd::prelude::*;

verus! {

/// The Airflow major version a DAG is generated for.
#[derive(PartialEq, Eq, Structural, Clone, Copy)]
pub enum AirflowMajorVersion {
    V2,
    V3,
}

/// The version a DAG is generated for when its configuration names none.
pub open spec fn effective_version(v: Option<AirflowMajorVersion>) -> AirflowMajorVersion {
    match v {
        Some(x) => x,
        None => AirflowMajorVersion::V2,
    }
}

/// The class of event-driven scheduling.
pub open spec fn class_of(v: AirflowMajorVersion) -> Seq<char> {
    match v {
        AirflowMajorVersion::V2 => "Dataset"@,
        AirflowMajorVersion::V3 => "Asset"@,
    }
}

/// The import of [`class_of`].
pub open spec fn class_import_of(v: AirflowMajorVersion) -> Seq<char> {
    match v {
        AirflowMajorVersion::V2 => "from airflow.datasets import Dataset"@,
        AirflowMajorVersion::V3 => "from airflow.sdk import Asset"@,
    }
}

/// The import of `BashOperator`.
pub open spec fn bash_import_of(v: AirflowMajorVersion) -> Seq<char> {
    match v {
        AirflowMajorVersion::V2 => "from airflow.operators.bash import BashOperator"@,
        AirflowMajorVersion::V3 => "from airflow.providers.standard.operators.bash import BashOperator"@,
    }
}

/// The import of `EmptyOperator`.
pub open spec fn empty_import_of(v: AirflowMajorVersion) -> Seq<char> {
    match v {
        AirflowMajorVersion::V2 => "from airflow.operators.empty import EmptyOperator"@,
        AirflowMajorVersion::V3 => "from airflow.providers.standard.operators.empty import EmptyOperator"@,
    }
}

/// The Airflow versions an event-driven DAG needs, at the top of its
/// header.
pub open spec fn banner_of(v: AirflowMajorVersion) -> Seq<char> {
    match v {
        AirflowMajorVersion::V2 => "# Airflow version contract:\n"@ + "#   - apache-airflow >= 2.9\n"@
            + "#   - apache-airflow-providers-amazon >= 8.13.0\n"@ + "#   - aiobotocore >= 2.1.1\n"@
            + "#   - Triggerer process required\n"@,
        AirflowMajorVersion::V3 => "# Airflow version contract:\n"@ + "#   - apache-airflow >= 3.0\n"@
            + "#   - apache-airflow-providers-amazon >= 9.0.0\n"@ + "#   - apache-airflow-providers-standard\n"@,
    }
}

/// The version named, or Airflow 2 when none is.
pub fn version_or_default(v: Option<AirflowMajorVersion>) -> (r: AirflowMajorVersion)
    ensures
        r == effective_version(v),
{
    match v {
        Some(x) => x,
        None => AirflowMajorVersion::V2,
    }
}

impl AirflowMajorVersion {
    /// The class of event-driven scheduling: `Dataset`, or `Asset` on
    /// Airflow 3.
    pub fn class_name(self) -> (r: &'static str)
        ensures
            r@ == class_of(self),
    {
        match self {
            AirflowMajorVersion::V2 => {
                proof {
                    reveal_strlit("Dataset");
                }
                "Dataset"
            },
            AirflowMajorVersion::V3 => {
                proof {
                    reveal_strlit("Asset");
                }
                "Asset"
            },
        }
    }

    /// The import of that class.
    pub fn class_import(self) -> (r: &'static str)
        ensures
            r@ == class_import_of(self),
    {
        match self {
            AirflowMajorVersion::V2 => {
                proof {
                    reveal_strlit("from airflow.datasets import Dataset");
                }
                "from airflow.datasets import Dataset"
            },
            AirflowMajorVersion::V3 => {
                proof {
                    reveal_strlit("from airflow.sdk import Asset");
                }
                "from airflow.sdk import Asset"
            },
        }
    }

    /// The import of `BashOperator`: from Airflow core, or from the
    /// standard providers on Airflow 3.
    pub fn bash_op_import(self) -> (r: &'static str)
        ensures
            r@ == bash_import_of(self),
    {
        match self {
            AirflowMajorVersion::V2 => {
                proof {
                    reveal_strlit("from airflow.operators.bash import BashOperator");
                }
                "from airflow.operators.bash import BashOperator"
            },
            AirflowMajorVersion::V3 => {
                proof {
                    reveal_strlit("from airflow.providers.standard.operators.bash import BashOperator");
                }
                "from airflow.providers.standard.operators.bash import BashOperator"
            },
        }
    }

    /// The import of `EmptyOperator`.
    pub fn empty_op_import(self) -> (r: &'static str)
        ensures
            r@ == empty_import_of(self),
    {
        match self {
            AirflowMajorVersion::V2 => {
                proof {
                    reveal_strlit("from airflow.operators.empty import EmptyOperator");
                }
                "from airflow.operators.empty import EmptyOperator"
            },
            AirflowMajorVersion::V3 => {
                proof {
                    reveal_strlit("from airflow.providers.standard.operators.empty import EmptyOperator");
                }
                "from airflow.providers.standard.operators.empty import EmptyOperator"
            },
        }
    }

    /// The version contract at the top of an event-driven DAG's header.
    pub fn version_banner(self) -> (r: &'static str)
        ensures
            r@ == banner_of(self),
    {
        match self {
            AirflowMajorVersion::V2 => {
                let b = "# Airflow version contract:\n#   - apache-airflow >= 2.9\n#   - apache-airflow-providers-amazon >= 8.13.0\n#   - aiobotocore >= 2.1.1\n#   - Triggerer process required\n";
                proof {
                    reveal_strlit("# Airflow version contract:\n#   - apache-airflow >= 2.9\n#   - apache-airflow-providers-amazon >= 8.13.0\n#   - aiobotocore >= 2.1.1\n#   - Triggerer process required\n");
                    reveal_strlit("# Airflow version contract:\n");
                    reveal_strlit("#   - apache-airflow >= 2.9\n");
                    reveal_strlit("#   - apache-airflow-providers-amazon >= 8.13.0\n");
                    reveal_strlit("#   - aiobotocore >= 2.1.1\n");
                    reveal_strlit("#   - Triggerer process required\n");
                    assert(b@ =~= banner_of(self));
                }
                b
            },
            AirflowMajorVersion::V3 => {
                let b = "# Airflow version contract:\n#   - apache-airflow >= 3.0\n#   - apache-airflow-providers-amazon >= 9.0.0\n#   - apache-airflow-providers-standard\n";
                proof {
                    reveal_strlit("# Airflow version contract:\n#   - apache-airflow >= 3.0\n#   - apache-airflow-providers-amazon >= 9.0.0\n#   - apache-airflow-providers-standard\n");
                    reveal_strlit("# Airflow version contract:\n");
                    reveal_strlit("#   - apache-airflow >= 3.0\n");
                    reveal_strlit("#   - apache-airflow-providers-amazon >= 9.0.0\n");
                    reveal_strlit("#   - apache-airflow-providers-standard\n");
                    assert(b@ =~= banner_of(self));
                }
                b
            },
        }
    }
}

} // verus!
