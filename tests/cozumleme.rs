use paket_yoneticisi::bagimlilik::BagimlilikYoneticisi;
use paket_yoneticisi::bildirim::{get_dependencies, get_dependencies_with_cycle};
use paket_yoneticisi::cakisma::{detect_conflicts, resolve_conflicts, ulasilanlar};
use paket_yoneticisi::cozumleyici::{resolve_dependencies, DependencyError};
use paket_yoneticisi::hata::PaketYoneticisiHata;
use paket_yoneticisi::harita::{Dependencies, Package};
use paket_yoneticisi::paket::Paket;

fn pk(name: &str, version: &str) -> Package {
    Package { name: name.to_string(), version: version.to_string() }
}

fn paket(ad: &str, bag: &[&str]) -> Paket {
    Paket::yeni(ad.to_string(), "1.0.0".to_string(), bag.iter().map(|s| s.to_string()).collect())
}

const CAKISMALI: &str = "A@1.0.0 -> B@2.0.0, C@3.0.0\nB@2.0.0 -> D@4.0.0\nC@3.0.0 -> D@5.0.0";

#[test]
fn test_get_dependencies_from_file() {
    let content = "A@1.0.0 -> B@2.0.0, C@3.0.0\nB@2.0.0 -> D@4.0.0\nC@3.0.0 -> D@5.0.0";
    let mut deps = Dependencies::new();
    deps.insert(pk("A", "1.0.0"), vec![pk("B", "2.0.0"), pk("C", "3.0.0")]);
    deps.insert(pk("B", "2.0.0"), vec![pk("D", "4.0.0")]);
    deps.insert(pk("C", "3.0.0"), vec![pk("D", "5.0.0")]);
    let loaded_deps = get_dependencies(content);
    assert_eq!(loaded_deps, deps);
}

#[test]
fn test_detect_conflicts() {
    let dependencies = get_dependencies(CAKISMALI);
    let conflicts = detect_conflicts(&dependencies);

    assert!(conflicts.contains(&(pk("D", "4.0.0"), pk("D", "5.0.0"))));
    assert_eq!(conflicts.len(), 1);
}

#[test]
fn test_resolve_conflicts_with_conflict() {
    let dependencies = get_dependencies(CAKISMALI);
    let conflicts = detect_conflicts(&dependencies);
    let resolved_result = resolve_conflicts(&dependencies, &conflicts);

    assert!(resolved_result.is_err());
    assert_eq!(resolved_result.unwrap_err(), "Çakışmalar çözülemedi (basit örnek).");
}

#[test]
fn test_resolve_conflicts_no_conflict() {
    let mut dependencies_no_conflict = get_dependencies(CAKISMALI);
    let c = pk("C", "3.0.0");
    let kalan: Vec<Package> =
        dependencies_no_conflict.get(&c).unwrap().iter().filter(|dep| dep.name != "D").cloned().collect();
    dependencies_no_conflict.insert(c, kalan);

    let conflicts = detect_conflicts(&dependencies_no_conflict);
    assert!(conflicts.is_empty());
    let resolved = resolve_conflicts(&dependencies_no_conflict, &conflicts).unwrap();
    assert_eq!(resolved, dependencies_no_conflict);
}

#[test]
fn test_resolve_dependencies() {
    let content = "A@1.0.0 -> B@2.0.0, C@3.0.0\nB@2.0.0 -> D@4.0.0";
    let dependencies = get_dependencies(content);
    let root_package = pk("A", "1.0.0");
    let resolved = resolve_dependencies(&dependencies, &root_package).unwrap();

    assert!(resolved.contains(&pk("A", "1.0.0")));
    assert!(resolved.contains(&pk("B", "2.0.0")));
    assert!(resolved.contains(&pk("C", "3.0.0")));
    assert!(resolved.contains(&pk("D", "4.0.0")));
    assert_eq!(resolved.len(), 4);
}

#[test]
fn test_resolve_dependencies_with_cycle() {
    let content = "A@1.0.0 -> B@2.0.0\nB@2.0.0 -> C@3.0.0\nC@3.0.0 -> A@1.0.0";
    let dependencies = get_dependencies(content);
    let root_package = pk("A", "1.0.0");
    let result = resolve_dependencies(&dependencies, &root_package);

    assert_eq!(result, Err(DependencyError::CycleDetected));
}

#[test]
fn test_resolve_dependencies_empty() {
    let content = "";
    let dependencies = get_dependencies(content);
    let root_package = pk("E", "1.0.0");
    let resolved = resolve_dependencies(&dependencies, &root_package).unwrap();
    assert!(resolved.is_empty());
}

#[test]
fn resolution_order_records_each_name_when_first_popped() {
    let paketler = vec![paket("A", &["B", "C"]), paket("B", &["D"]), paket("C", &["D"]), paket("D", &[])];
    let r = BagimlilikYoneticisi::bagimliliklari_coz(&paketler, "A").unwrap();
    assert_eq!(r, vec!["A".to_string(), "C".to_string(), "D".to_string(), "B".to_string()]);
    assert_eq!(r.len(), 4);
}

#[test]
fn resolution_reports_unknown_root_and_unknown_dependency() {
    let paketler = vec![paket("A", &["B"]), paket("B", &["Z"])];
    assert_eq!(
        BagimlilikYoneticisi::bagimliliklari_coz(&paketler, "X"),
        Err(PaketYoneticisiHata::PaketBulunamadi("X".to_string()))
    );
    assert_eq!(
        BagimlilikYoneticisi::bagimliliklari_coz(&paketler, "A"),
        Err(PaketYoneticisiHata::BagimlilikBulunamadi("Z".to_string()))
    );
}

#[test]
fn resolution_uses_the_last_entry_of_a_name_and_survives_cycles() {
    let paketler = vec![paket("A", &["B"]), paket("B", &["A"]), paket("A", &[])];
    let r = BagimlilikYoneticisi::bagimliliklari_coz(&paketler, "A").unwrap();
    assert_eq!(r, vec!["A".to_string()]);
    let dongulu = vec![paket("A", &["B"]), paket("B", &["A"])];
    let r = BagimlilikYoneticisi::bagimliliklari_coz(&dongulu, "A").unwrap();
    assert_eq!(r, vec!["A".to_string(), "B".to_string()]);
}

#[test]
fn self_dependency_is_a_cycle_and_a_diamond_is_not() {
    let g = get_dependencies("A@1 -> A@1");
    assert_eq!(resolve_dependencies(&g, &pk("A", "1")), Err(DependencyError::CycleDetected));
    let g = get_dependencies("A@1 -> B@1, C@1\nB@1 -> D@1\nC@1 -> D@1\nD@1 -> ");
    let r = resolve_dependencies(&g, &pk("A", "1")).unwrap();
    assert_eq!(r.len(), 4);
    let d = r.iter().position(|p| p.name == "D").unwrap();
    let a = r.iter().position(|p| p.name == "A").unwrap();
    assert!(d < a);
}

#[test]
fn reachable_walk_starts_at_root() {
    let g = get_dependencies(CAKISMALI);
    let u = ulasilanlar(&g, &pk("A", "1.0.0"));
    assert_eq!(u[0], pk("A", "1.0.0"));
    assert_eq!(u.len(), 5);
}

#[test]
fn declaration_parsing_skips_malformed_parts() {
    let g = get_dependencies("\n  \nX@1 -> Y@2, bad, Z@3 , W@4@5\nnot a line\nQ -> R@1\nX@1 -> Y@9\r\n");
    let mut beklenen = Dependencies::new();
    beklenen.insert(pk("X", "1"), vec![pk("Y", "9")]);
    assert_eq!(g, beklenen);
    let g = get_dependencies("P@1 -> A@1, B@2");
    assert_eq!(g.get(&pk("P", "1")).unwrap(), &vec![pk("A", "1"), pk("B", "2")]);
}

#[test]
fn declaration_with_two_arrows_is_rejected() {
    let g = get_dependencies("A@1 -> B@1 -> C@1");
    assert_eq!(g.len(), 0);
}

#[test]
fn added_back_edge_closes_a_cycle() {
    let g = get_dependencies_with_cycle("A@1.0.0 -> B@2.0.0\nB@2.0.0 -> C@3.0.0");
    assert_eq!(g.get(&pk("C", "3.0.0")).unwrap(), &vec![pk("A", "1.0.0")]);
    assert_eq!(resolve_dependencies(&g, &pk("A", "1.0.0")), Err(DependencyError::CycleDetected));
    let g = get_dependencies_with_cycle("C@3.0.0 -> D@1");
    assert_eq!(g.get(&pk("C", "3.0.0")).unwrap(), &vec![pk("D", "1"), pk("A", "1.0.0")]);
    assert_eq!(resolve_dependencies(&g, &pk("A", "1.0.0")), Ok(vec![]));
}
