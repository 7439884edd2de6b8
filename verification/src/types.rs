//! The values that parsing produces, and their mathematical models.
use vstd::prelude::*;

verus! {

/// Information about a crate as reported by `cargo info`.
///
/// This is the top-level type that `parse` returns. It corresponds to one
/// invocation of `cargo info -q <crate-name> --color never`.
#[derive(Debug, Clone, PartialEq, Eq)]
pub struct CrateInfo {
    /// The name of the crate.
    pub name: String,
    /// Keywords associated with the crate: the `#keyword` tokens of the first
    /// line, without the `#`.
    pub keywords: Vec<String>,
    /// A short description of the crate; lines of a wrapped description are
    /// joined with `'\n'`.
    pub description: String,
    /// The published version of the crate (e.g., `"2.0.117"`).
    pub version: String,
    /// The SPDX license expression of the crate (e.g., `"MIT OR Apache-2.0"`).
    pub license: String,
    /// The minimum supported Rust version, if specified.
    pub rust_version: Option<String>,
    /// The URL of the crate's API documentation, if specified.
    pub documentation: Option<String>,
    /// The URL of the crate's homepage, if specified.
    pub homepage: Option<String>,
    /// The URL of the crate's source repository, if specified.
    pub repository: Option<String>,
    /// The URL of the crate's page on crates.io, if available.
    pub crates_io: Option<String>,
    /// The Cargo feature flags declared by the crate, in order.
    pub features: Vec<Feature>,
}

/// A Cargo feature flag declared by a crate.
#[derive(Debug, Clone, PartialEq, Eq)]
pub struct Feature {
    /// Whether this feature is in the default feature set (a `+` mark).
    pub is_default: bool,
    /// The name of the feature.
    pub name: String,
    /// The features or dependencies that this feature enables, in order.
    pub dependencies: Vec<String>,
}

/// The mathematical model of a [`Feature`].
pub ghost struct FeatureView {
    pub is_default: bool,
    pub name: Seq<char>,
    pub dependencies: Seq<Seq<char>>,
}

/// The mathematical model of a [`CrateInfo`].
pub ghost struct CrateInfoView {
    pub name: Seq<char>,
    pub keywords: Seq<Seq<char>>,
    pub description: Seq<char>,
    pub version: Seq<char>,
    pub license: Seq<char>,
    pub rust_version: Option<Seq<char>>,
    pub documentation: Option<Seq<char>>,
    pub homepage: Option<Seq<char>>,
    pub repository: Option<Seq<char>>,
    pub crates_io: Option<Seq<char>>,
    pub features: Seq<FeatureView>,
}

impl View for Feature {
    type V = FeatureView;

    open spec fn view(&self) -> FeatureView {
        FeatureView {
            is_default: self.is_default,
            name: self.name@,
            dependencies: self.dependencies.deep_view(),
        }
    }
}

/// The models of a sequence of features.
pub open spec fn features_view(fs: Seq<Feature>) -> Seq<FeatureView> {
    fs.map_values(|f: Feature| f@)
}

impl View for CrateInfo {
    type V = CrateInfoView;

    open spec fn view(&self) -> CrateInfoView {
        CrateInfoView {
            name: self.name@,
            keywords: self.keywords.deep_view(),
            description: self.description@,
            version: self.version@,
            license: self.license@,
            rust_version: self.rust_version.deep_view(),
            documentation: self.documentation.deep_view(),
            homepage: self.homepage.deep_view(),
            repository: self.repository.deep_view(),
            crates_io: self.crates_io.deep_view(),
            features: features_view(self.features@),
        }
    }
}

} // verus!
