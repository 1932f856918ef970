use std::sync::Arc;

use injector::{Container, Injectable, InjectionError, Instance, wrap_injectable};

trait ServiceTrait {
    fn do_something(&self) -> i32;
}

struct ServiceImpl {}

impl ServiceTrait for ServiceImpl {
    fn do_something(&self) -> i32 {
        10
    }
}

const SERVICE_TRAIT_ID: u64 = 1;

type IService = Arc<dyn ServiceTrait>;

struct ServiceFactory;

impl Injectable<IService> for ServiceFactory {
    fn resolve_injectable(
        &self,
        _container: &mut Container<Self, IService>,
    ) -> Result<Instance<IService>, InjectionError> {
        Ok(wrap_injectable(SERVICE_TRAIT_ID, Arc::new(ServiceImpl {})))
    }
}

#[test]
fn it_works_unbuilt() {
    let container: Container<ServiceFactory, IService> =
        Container::new().bind_singleton(SERVICE_TRAIT_ID, ServiceFactory);

    let srv = container.resolve(SERVICE_TRAIT_ID).expect("rip lol");

    assert_eq!(srv.do_something(), 10);
}

#[test]
fn it_works_built() {
    let container: Container<ServiceFactory, IService> = Container::new()
        .bind_singleton(SERVICE_TRAIT_ID, ServiceFactory)
        .build()
        .unwrap();

    let srv = container.resolve(SERVICE_TRAIT_ID).expect("rip lol");

    assert_eq!(srv.do_something(), 10);
}

#[test]
fn it_works_built_w_child() {
    let child_container: Container<ServiceFactory, IService> =
        Container::new().bind_singleton(SERVICE_TRAIT_ID, ServiceFactory);

    let container = Container::new()
        .bind_container_into(child_container)
        .build()
        .unwrap();

    let srv = container.resolve(SERVICE_TRAIT_ID).expect("rip lol");

    assert_eq!(srv.do_something(), 10);
}

pub trait FooServiceTrait: Send + Sync {
    fn foo_function(&self) -> bool;
}

pub type IFooService = Arc<dyn FooServiceTrait>;

pub struct FooServiceImpl {}

impl FooServiceTrait for FooServiceImpl {
    fn foo_function(&self) -> bool {
        true
    }
}

const FOO_SERVICE_ID: u64 = 2;

struct FooServiceFactory;

impl Injectable<IFooService> for FooServiceFactory {
    fn resolve_injectable(
        &self,
        _container: &mut Container<Self, IFooService>,
    ) -> Result<Instance<IFooService>, InjectionError> {
        Ok(wrap_injectable(FOO_SERVICE_ID, Arc::new(FooServiceImpl {})))
    }
}

fn main_er() {
    let container: Container<FooServiceFactory, IFooService> = Container::new()
        .bind_singleton(FOO_SERVICE_ID, FooServiceFactory)
        .build()
        .expect("Container failed to build");

    let foo_instance = container.resolve(FOO_SERVICE_ID).unwrap();

    assert_eq!(foo_instance.foo_function(), true);
}

#[test]
fn readme_test() {
    main_er()
}
