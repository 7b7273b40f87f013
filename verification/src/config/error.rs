//! What can be wrong with a configuration.

use vstd::prelude::*;
use crate::data::Data;
use crate::text;

verus! {

/// The plain values of a [`ConfigError`].
#[verifier::ext_equal]
pub enum ConfigErrorView {
    Kdl(Seq<char>),
    MissingField(Seq<char>),
    UnknownDirective(Seq<char>),
    InvalidValue { field: Seq<char>, detail: Seq<char> },
}

/// What is wrong with a configuration.
#[derive(Debug, PartialEq, Eq)]
pub enum ConfigError {
    /// The text is no KDL document.
    Kdl(String),
    /// Something that must be there is not.
    MissingField(String),
    /// A directive that means nothing here.
    UnknownDirective(String),
    /// A value that cannot stand where it does.
    InvalidValue {
        field: String,
        detail: String,
    },
}

impl DeepView for ConfigError {
    type V = ConfigErrorView;

    open spec fn deep_view(&self) -> ConfigErrorView {
        match self {
            ConfigError::Kdl(a) => ConfigErrorView::Kdl(a.deep_view()),
            ConfigError::MissingField(a) => ConfigErrorView::MissingField(a.deep_view()),
            ConfigError::UnknownDirective(a) => ConfigErrorView::UnknownDirective(a.deep_view()),
            ConfigError::InvalidValue { field, detail } => {
                ConfigErrorView::InvalidValue {
                    field: field.deep_view(),
                    detail: detail.deep_view(),
                }
            },
        }
    }
}

impl Data for ConfigError {
    fn duplicate(&self) -> (r: ConfigError) {
        match self {
            ConfigError::Kdl(a) => ConfigError::Kdl(a.duplicate()),
            ConfigError::MissingField(a) => ConfigError::MissingField(a.duplicate()),
            ConfigError::UnknownDirective(a) => ConfigError::UnknownDirective(a.duplicate()),
            ConfigError::InvalidValue { field, detail } => {
                ConfigError::InvalidValue { field: field.duplicate(), detail: detail.duplicate() }
            },
        }
    }

    fn same_as(&self, other: &ConfigError) -> (r: bool) {
        match (self, other) {
            (ConfigError::Kdl(a), ConfigError::Kdl(b_a)) => a.same_as(b_a),
            (ConfigError::MissingField(a), ConfigError::MissingField(b_a)) => a.same_as(b_a),
            (ConfigError::UnknownDirective(a), ConfigError::UnknownDirective(b_a)) => {
                a.same_as(b_a)
            },
            (
                ConfigError::InvalidValue { field, detail },
                ConfigError::InvalidValue { field: b_field, detail: b_detail },
            ) => {
                field.same_as(b_field)
                    && detail.same_as(b_detail)
            },
            _ => false,
        }
    }
}

impl Clone for ConfigError {
    fn clone(&self) -> (r: ConfigError)
        ensures
            r.deep_view() == self.deep_view(),
    {
        self.duplicate()
    }
}

/// A field that is missing.
pub open spec fn missing(field: Seq<char>) -> ConfigErrorView {
    ConfigErrorView::MissingField(field)
}

/// A value that cannot stand where it does.
pub open spec fn invalid(field: Seq<char>, detail: Seq<char>) -> ConfigErrorView {
    ConfigErrorView::InvalidValue { field, detail }
}

/// A field that is missing.
pub fn missing_field(field: &str) -> (e: ConfigError)
    ensures
        e.deep_view() == missing(field@),
{
    ConfigError::MissingField(field.to_owned())
}

/// A directive that is not known.
pub fn unknown_directive(name: &str) -> (e: ConfigError)
    ensures
        e.deep_view() == ConfigErrorView::UnknownDirective(name@),
{
    ConfigError::UnknownDirective(name.to_owned())
}

/// A value that cannot stand where it does.
pub fn invalid_value(field: &str, detail: String) -> (e: ConfigError)
    ensures
        e.deep_view() == invalid(field@, detail@),
{
    ConfigError::InvalidValue { field: field.to_owned(), detail }
}

/// The words for an error.
pub open spec fn config_message(e: ConfigErrorView) -> Seq<char> {
    match e {
        ConfigErrorView::Kdl(s) => "KDL parse error: "@ + s,
        ConfigErrorView::MissingField(s) => "missing required field: "@ + s,
        ConfigErrorView::UnknownDirective(s) => "unknown directive: "@ + s,
        ConfigErrorView::InvalidValue { field, detail } => "invalid value for '"@ + field + "': "@
            + detail,
    }
}

impl ConfigError {
    /// The words for the error.
    pub fn message(&self) -> (r: String)
        ensures
            r@ == config_message(self.deep_view()),
    {
        match self {
            ConfigError::Kdl(s) => text::join("KDL parse error: ", s.as_str()),
            ConfigError::MissingField(s) => text::join("missing required field: ", s.as_str()),
            ConfigError::UnknownDirective(s) => text::join("unknown directive: ", s.as_str()),
            ConfigError::InvalidValue { field, detail } => text::join(
                text::join3("invalid value for '", field.as_str(), "': ").as_str(),
                detail.as_str(),
            ),
        }
    }
}

} // verus!
