use crate::model::drs::{Dr, DrView};
use vstd::prelude::*;

verus! {

/// The languages for which a dependency reader exists.
#[derive(Debug, Clone, Copy, PartialEq, Eq, Structural)]
pub enum PluginKind {
    Java,
    Go,
    JavaScript,
}

/// Why a dependency reader could not be run.
#[derive(Debug, Clone, Copy, PartialEq, Eq, Structural)]
pub enum PluginError {
    /// Too few parameters were given for the reader.
    WrongArguments,
    /// The place of the Go reader cannot be written as text.
    NoGoFileInstalled,
    /// The place of the Java reader cannot be written as text.
    NoJavaDependencyReaderInstalled,
    /// The place of the JavaScript reader cannot be written as text.
    NoJSDependencyReaderInstalled,
}

impl PluginError {
    /// The error in words.
    pub fn message(&self) -> (text: String)
        ensures
            text@ == match *self {
                PluginError::WrongArguments => "Wrong arguments"@,
                PluginError::NoGoFileInstalled => "No Go file installed"@,
                PluginError::NoJavaDependencyReaderInstalled => "No Java dependency reader installed"@,
                PluginError::NoJSDependencyReaderInstalled => "No Java dependency reader installed"@,
            },
    {
        match self {
            PluginError::WrongArguments => "Wrong arguments".to_owned(),
            PluginError::NoGoFileInstalled => "No Go file installed".to_owned(),
            PluginError::NoJavaDependencyReaderInstalled => "No Java dependency reader installed".to_owned(),
            PluginError::NoJSDependencyReaderInstalled => "No Java dependency reader installed".to_owned(),
        }
    }
}

impl PluginKind {
    /// The number of parameters that the reader of this language needs: the
    /// root path, and for Go the main package too.
    pub open spec fn needed_params(self) -> nat {
        match self {
            PluginKind::Go => 2,
            PluginKind::Java => 1,
            PluginKind::JavaScript => 1,
        }
    }

    /// Checks that enough parameters were given for the reader of this
    /// language; fails with `WrongArguments` where they were not.
    pub fn check_params(&self, given: usize) -> (checked: Result<(), PluginError>)
        ensures
            checked is Ok <==> given >= self.needed_params(),
            checked is Err ==> checked == Err::<(), PluginError>(PluginError::WrongArguments),
    {
        let needed: usize = match self {
            PluginKind::Go => 2,
            PluginKind::Java => 1,
            PluginKind::JavaScript => 1,
        };
        if given < needed {
            Err(PluginError::WrongArguments)
        } else {
            Ok(())
        }
    }

    /// The name of the directory, below the plugin directory, that holds the
    /// reader of this language.
    pub fn directory(&self) -> (name: String)
        ensures
            name@ == match *self {
                PluginKind::Go => "go"@,
                PluginKind::Java => "java"@,
                PluginKind::JavaScript => "js"@,
            },
    {
        match self {
            PluginKind::Go => "go".to_owned(),
            PluginKind::Java => "java".to_owned(),
            PluginKind::JavaScript => "js".to_owned(),
        }
    }

    /// The name of the reader of this language inside its directory.
    pub fn program(&self) -> (name: String)
        ensures
            name@ == match *self {
                PluginKind::Go => "go-dependencies-reader"@,
                PluginKind::Java => "JavaDependenciesReader.jar"@,
                PluginKind::JavaScript => "js-dependencies-reader"@,
            },
    {
        match self {
            PluginKind::Go => "go-dependencies-reader".to_owned(),
            PluginKind::Java => "JavaDependenciesReader.jar".to_owned(),
            PluginKind::JavaScript => "js-dependencies-reader".to_owned(),
        }
    }

    /// The error to report where the place of this language's reader cannot
    /// be written as text.
    pub fn not_installed(&self) -> (e: PluginError)
        ensures
            e == match *self {
                PluginKind::Go => PluginError::NoGoFileInstalled,
                PluginKind::Java => PluginError::NoJavaDependencyReaderInstalled,
                PluginKind::JavaScript => PluginError::NoJSDependencyReaderInstalled,
            },
    {
        match self {
            PluginKind::Go => PluginError::NoGoFileInstalled,
            PluginKind::Java => PluginError::NoJavaDependencyReaderInstalled,
            PluginKind::JavaScript => PluginError::NoJSDependencyReaderInstalled,
        }
    }
}

/// The dependency relation that a reader's record stands for: a call from
/// `caller` to `callee` in the given project, not stored yet.
pub open spec fn record_relation(project_id: Seq<char>, record: (Seq<char>, Seq<char>)) -> DrView {
    DrView { id: None, source: record.0, target: record.1, project_id }
}

/// Turns the (caller, callee) records that a dependency reader printed into
/// the dependency relations of a project, one for each record and in the
/// same order.
pub fn read_drs(project_id: &str, records: Vec<(String, String)>) -> (drs: Vec<Dr>)
    ensures
        drs.len() == records.len(),
        forall|i: int|
            0 <= i < drs.len() ==> (#[trigger] drs[i])@ == record_relation(
                project_id@,
                (records[i].0@, records[i].1@),
            ),
{
    let n = records.len();
    let mut drs: Vec<Dr> = Vec::new();
    let mut i: usize = 0;
    while i < n
        invariant
            i <= n,
            n == records.len(),
            drs.len() == i,
            forall|j: int|
                0 <= j < i ==> (#[trigger] drs[j])@ == record_relation(
                    project_id@,
                    (records[j].0@, records[j].1@),
                ),
        decreases n - i,
    {
        drs.push(
            Dr {
                id: None,
                source: records[i].0.clone(),
                target: records[i].1.clone(),
                project_id: project_id.to_owned(),
            },
        );
        i += 1;
    }
    drs
}

} // verus!
