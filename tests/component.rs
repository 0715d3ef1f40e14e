use std::any::Any;

use lib_engine::component::mesh::Mesh;
use lib_engine::component::{Component, ComponentType};

#[derive(Debug)]
struct ManualImplComponent;

impl Component for ManualImplComponent {}

impl ComponentType for ManualImplComponent {
    const TYPE: &'static str = "Test";
}

#[test]
fn component_type() {
    assert_eq!(ManualImplComponent::TYPE, "Test");
}

#[derive(Debug, PartialEq, Clone, Copy)]
struct AutoImplComponent;

impl Component for AutoImplComponent {}

impl ComponentType for AutoImplComponent {
    const TYPE: &'static str = "AutoImplComponent";
}

#[test]
fn component_custom_derive() {
    assert_eq!(AutoImplComponent::TYPE, "AutoImplComponent");
}

#[test]
fn get_concrete_type_back() {
    let a = AutoImplComponent {};
    let trait_obj_a: Box<dyn Any> = Box::new(a);

    let original_a = trait_obj_a.downcast_ref::<AutoImplComponent>().unwrap();

    assert_eq!(original_a, &a);
}

#[test]
fn get_concrete_type_back_mut() {
    let mut a = AutoImplComponent {};
    let mut trait_obj_a: Box<dyn Any> = Box::new(a);

    let original_a = trait_obj_a.downcast_mut::<AutoImplComponent>().unwrap();

    assert_eq!(original_a, &mut a);
}

#[test]
fn mesh_component_name() {
    assert_eq!(<Mesh<[f64; 3]> as ComponentType>::TYPE, "Mesh");
}
