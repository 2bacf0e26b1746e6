use vstd::prelude::*;

verus! {

/// One finding of a record's depth check: the property that broke the rule,
/// the position inside its sequence where that applies, and a message.
#[derive(Debug)]
pub struct ErrorInfo {
    name: String,
    table_index: Option<usize>,
    err_msg: String,
}

impl View for ErrorInfo {
    type V = (Seq<char>, Option<usize>, Seq<char>);

    closed spec fn view(&self) -> Self::V {
        (self.name@, self.table_index, self.err_msg@)
    }
}

impl ErrorInfo {
    pub fn new(name: String, table_index: Option<usize>, err_msg: String) -> (r: Self)
        ensures
            r@ == (name@, table_index, err_msg@),
    {
        ErrorInfo { name, table_index, err_msg }
    }

    pub fn name(&self) -> (r: &str)
        ensures
            r@ == self@.0,
    {
        self.name.as_str()
    }

    pub fn table_index(&self) -> (r: Option<usize>)
        ensures
            r == self@.1,
    {
        self.table_index
    }

    pub fn err_msg(&self) -> (r: &str)
        ensures
            r@ == self@.2,
    {
        self.err_msg.as_str()
    }
}

/// Opaque: an I/O failure from std.
#[verifier::external_type_specification]
#[verifier::external_body]
pub struct ExIoError(std::io::Error);

/// Opaque: a document parsing failure from serde_yaml.
#[verifier::external_type_specification]
#[verifier::external_body]
pub struct ExYamlError(serde_yaml::Error);

/// Why loading a collection failed: its file could not be read, or its
/// content could not be parsed into records.
#[derive(Debug)]
pub enum LoadError {
    IoError(std::io::Error),
    SerdeYamlError(serde_yaml::Error),
}

impl From<std::io::Error> for LoadError {
    fn from(err: std::io::Error) -> (r: Self)
        ensures
            r == LoadError::IoError(err),
    {
        LoadError::IoError(err)
    }
}

impl vstd::std_specs::convert::FromSpecImpl<std::io::Error> for LoadError {
    open spec fn obeys_from_spec() -> bool {
        true
    }

    open spec fn from_spec(err: std::io::Error) -> Self {
        LoadError::IoError(err)
    }
}

impl From<serde_yaml::Error> for LoadError {
    fn from(err: serde_yaml::Error) -> (r: Self)
        ensures
            r == LoadError::SerdeYamlError(err),
    {
        LoadError::SerdeYamlError(err)
    }
}

impl vstd::std_specs::convert::FromSpecImpl<serde_yaml::Error> for LoadError {
    open spec fn obeys_from_spec() -> bool {
        true
    }

    open spec fn from_spec(err: serde_yaml::Error) -> Self {
        LoadError::SerdeYamlError(err)
    }
}

} // verus!
