use polyorama::paths::{is_strictly_beneath, normalise_absolute, PathComponent};

fn named(name: &str) -> PathComponent {
    PathComponent::Normal(name.to_string())
}

#[test]
fn normalisation_drops_current_and_resolves_parent_components() {
    let path = vec![PathComponent::Root, named("repo"), PathComponent::Current, named(".tools"), PathComponent::Parent, named("docs")];
    assert_eq!(
        normalise_absolute(&path, "/repo/./.tools/../docs"),
        Ok(vec![PathComponent::Root, named("repo"), named("docs")])
    );
}

#[test]
fn relative_and_escaping_paths_are_refused() {
    assert_eq!(
        normalise_absolute(&vec![named("out")], "out"),
        Err("expected an absolute path, observed out".to_string())
    );
    assert_eq!(
        normalise_absolute(&vec![PathComponent::Root, PathComponent::Parent], "/.."),
        Err("path escapes the filesystem root: /..".to_string())
    );
}

#[test]
fn output_must_lie_beneath_the_tools_directory() {
    let tools = vec![PathComponent::Root, named("repo"), named(".tools")];
    let inside = vec![PathComponent::Root, named("repo"), named(".tools"), named("ui")];
    let docs = vec![PathComponent::Root, named("repo"), named("docs")];
    assert!(is_strictly_beneath(&inside, &tools));
    assert!(!is_strictly_beneath(&tools, &tools));
    assert!(!is_strictly_beneath(&docs, &tools));
}
