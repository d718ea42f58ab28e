use simplicityhl_lsp::compiler::UnstableFeature;
use simplicityhl_lsp::config::{
    ExperimentalFeatures, ManualDependency, ManualDependencyDetails, ProjectSettings, Settings,
};

#[test]
fn defaults_keep_experimental_syntax_disabled_and_simplex_detection_enabled() {
    let settings = Settings::default();

    assert!(!settings.experimental_features.imports);
    assert!(settings.project.simplex.enabled);
}

#[test]
fn only_the_features_that_are_set_are_enabled() {
    let mut settings = Settings::default();
    assert!(settings.unstable_features().is_empty());

    settings.experimental_features = ExperimentalFeatures {
        imports: true,
        enums: false,
    };
    assert_eq!(
        settings.unstable_features(),
        vec![UnstableFeature::Imports]
    );

    settings.experimental_features.enums = true;
    assert_eq!(
        settings.unstable_features(),
        vec![UnstableFeature::Imports, UnstableFeature::Enums]
    );
}

#[test]
fn a_blank_context_is_none() {
    let short = ManualDependency::Path("../std/simf".to_string());
    assert_eq!(short.path(), "../std/simf");
    assert_eq!(short.context(), None);

    let detailed = |context: &str| {
        ManualDependency::Detailed(ManualDependencyDetails {
            path: "../math/simf".to_string(),
            context: context.to_string(),
        })
    };
    assert_eq!(detailed("contracts/lib").path(), "../math/simf");
    assert_eq!(detailed("contracts/lib").context(), Some("contracts/lib"));
    assert_eq!(detailed("  ").context(), None);
    assert_eq!(ManualDependencyDetails::default().path, "");
}

#[test]
fn dependencies_are_kept_in_the_order_of_their_names() {
    let mut settings = ProjectSettings::default();
    for name in ["std", "math", "std"] {
        settings
            .dependencies
            .insert(name.to_string(), ManualDependency::Path(format!("../{name}")));
    }
    assert_eq!(settings.dependencies.len(), 2);
    assert_eq!(settings.dependencies.key_at(0), "math");
    assert_eq!(
        settings.dependencies.get("std").map(ManualDependency::path),
        Some("../std")
    );
    settings.dependencies.remove("math");
    assert!(settings.dependencies.get("math").is_none());
    assert_eq!(settings.dependencies.key_at(0), "std");
}
