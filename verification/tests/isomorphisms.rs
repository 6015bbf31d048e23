use dotevery_editor::logic::program_module::{ProgramModule, ProgramModuleChildItems, ProgramModuleOption};
use dotevery_editor::util::Isomorphism;

#[test]
fn module_isomorphisms_success_test() {
    let a = ProgramModule::<i32>::new_default(Vec::new(), ProgramModuleChildItems::NoBlock);
    let b = ProgramModule::<i32>::new_default(Vec::new(), ProgramModuleChildItems::NoBlock);
    assert_ne!(a, b);
    assert!(a.isomorphisms(&b));
    assert!(b.isomorphisms(&a));
    assert!(a.isomorphisms(&a));

    let a = ProgramModule::<i32>::new_default(vec![ProgramModuleOption::StringSign("test".to_string()), ProgramModuleOption::StringInput("test1".to_string()), ProgramModuleOption::ProgramModule(None), ProgramModuleOption::ProgramModule(Some(ProgramModule::new_default(Vec::new(), ProgramModuleChildItems::NoBlock)))], ProgramModuleChildItems::NoBlock);
    let b = ProgramModule::<i32>::new_default(vec![ProgramModuleOption::StringSign("test".to_string()), ProgramModuleOption::StringInput("test2".to_string()), ProgramModuleOption::ProgramModule(None), ProgramModuleOption::ProgramModule(Some(ProgramModule::new_default(Vec::new(), ProgramModuleChildItems::NoBlock)))], ProgramModuleChildItems::NoBlock);
    assert_ne!(a, b);
    assert!(a.isomorphisms(&b));
    assert!(b.isomorphisms(&a));
    assert!(a.isomorphisms(&a));

    let a = ProgramModule::<i32>::new_default(Vec::new(), ProgramModuleChildItems::BlockVertical(Vec::new()));
    let b = ProgramModule::<i32>::new_default(Vec::new(), ProgramModuleChildItems::BlockVertical(Vec::new()));
    assert_ne!(a, b);
    assert!(a.isomorphisms(&b));
    assert!(b.isomorphisms(&a));
    assert!(a.isomorphisms(&a));

    let a = ProgramModule::<i32>::new_default(Vec::new(), ProgramModuleChildItems::BlockHorizontal(Vec::new()));
    let b = ProgramModule::<i32>::new_default(Vec::new(), ProgramModuleChildItems::BlockHorizontal(Vec::new()));
    assert_ne!(a, b);
    assert!(a.isomorphisms(&b));
    assert!(b.isomorphisms(&a));
    assert!(a.isomorphisms(&a));

    let a = ProgramModule::<i32>::new(Vec::new(), ProgramModuleChildItems::NoBlock, 10);
    let b = ProgramModule::<i32>::new(Vec::new(), ProgramModuleChildItems::NoBlock, 10);
    assert_ne!(a, b);
    assert!(a.isomorphisms(&b));
    assert!(b.isomorphisms(&a));
    assert!(a.isomorphisms(&a));
}

#[test]
fn module_isomorphisms_failed_test() {
    let a = ProgramModule::<i32>::new_default(vec![ProgramModuleOption::ProgramModule(Some(ProgramModule::new_default(Vec::new(), ProgramModuleChildItems::NoBlock)))], ProgramModuleChildItems::NoBlock);
    let b = ProgramModule::<i32>::new_default(vec![], ProgramModuleChildItems::NoBlock);
    assert!(!a.isomorphisms(&b));
    assert!(!b.isomorphisms(&a));

    let a = ProgramModule::<i32>::new_default(vec![ProgramModuleOption::StringSign("test1".to_string())], ProgramModuleChildItems::NoBlock);
    let b = ProgramModule::<i32>::new_default(vec![ProgramModuleOption::StringSign("test2".to_string())], ProgramModuleChildItems::NoBlock);
    assert!(!a.isomorphisms(&b));
    assert!(!b.isomorphisms(&a));

    let a = ProgramModule::<i32>::new_default(vec![ProgramModuleOption::ProgramModule(Some(ProgramModule::new_default(Vec::new(), ProgramModuleChildItems::NoBlock)))], ProgramModuleChildItems::NoBlock);
    let b = ProgramModule::<i32>::new_default(vec![ProgramModuleOption::ProgramModule(None)], ProgramModuleChildItems::NoBlock);
    assert!(!a.isomorphisms(&b));
    assert!(!b.isomorphisms(&a));


    let a = ProgramModule::<i32>::new_default(vec![ProgramModuleOption::ProgramModule(Some(ProgramModule::new_default(Vec::new(), ProgramModuleChildItems::NoBlock)))], ProgramModuleChildItems::NoBlock);
    let b = ProgramModule::<i32>::new_default(vec![ProgramModuleOption::ProgramModule(Some(ProgramModule::new_default(vec![ProgramModuleOption::StringSign("test".to_string())], ProgramModuleChildItems::NoBlock)))], ProgramModuleChildItems::NoBlock);
    assert!(!a.isomorphisms(&b));
    assert!(!b.isomorphisms(&a));

    let a = ProgramModule::<i32>::new(Vec::new(), ProgramModuleChildItems::NoBlock, 1);
    let b = ProgramModule::<i32>::new(Vec::new(), ProgramModuleChildItems::NoBlock, 2);
    assert!(!a.isomorphisms(&b));
    assert!(!b.isomorphisms(&a));
}

#[test]
fn isomorphisms_compares_container_lists_member_by_member() {
    let leaf = || ProgramModule::<i32>::new_default(Vec::new(), ProgramModuleChildItems::NoBlock);
    let labelled = || ProgramModule::<i32>::new_default(vec![ProgramModuleOption::StringSign("test".to_string())], ProgramModuleChildItems::NoBlock);
    let a = ProgramModule::<i32>::new_default(Vec::new(), ProgramModuleChildItems::BlockVertical(vec![leaf(), leaf()]));
    let b = ProgramModule::<i32>::new_default(Vec::new(), ProgramModuleChildItems::BlockVertical(vec![labelled(), leaf()]));
    let c = ProgramModule::<i32>::new_default(Vec::new(), ProgramModuleChildItems::BlockVertical(vec![leaf()]));
    let d = ProgramModule::<i32>::new_default(Vec::new(), ProgramModuleChildItems::BlockHorizontal(vec![leaf(), leaf()]));
    assert!(!a.isomorphisms(&b));
    assert!(!b.isomorphisms(&a));
    assert!(!a.isomorphisms(&c));
    assert!(!a.isomorphisms(&d));
    assert!(a.isomorphisms(&a.deep_clone()));
}
