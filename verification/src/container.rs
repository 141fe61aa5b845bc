//! Handles to containers.

use vstd::prelude::*;

use crate::tree::ContainerKind;

verus! {

/// Any container, by its ID.
#[derive(Clone, Copy, Debug, PartialEq, Eq, Structural)]
pub struct Container {
    pub id: u128,
    pub kind: ContainerKind,
}

/// A workspace, by its ID.
#[derive(Clone, Copy, Debug, PartialEq, Eq, Structural)]
pub struct Workspace {
    pub id: u128,
}

/// A window, by its ID.
#[derive(Clone, Copy, Debug, PartialEq, Eq, Structural)]
pub struct WindowContainer {
    pub id: u128,
    pub is_tiling: bool,
}

/// What can be taken for a container.
pub trait IntoContainer: Sized {
    spec fn container(self) -> Container;

    fn into_container(self) -> (container: Container)
        ensures
            container == self.container(),
    ;
}

impl IntoContainer for Container {
    open spec fn container(self) -> Container {
        self
    }

    fn into_container(self) -> (container: Container) {
        self
    }
}

impl IntoContainer for Workspace {
    open spec fn container(self) -> Container {
        Container { id: self.id, kind: ContainerKind::Workspace }
    }

    fn into_container(self) -> (container: Container) {
        Container { id: self.id, kind: ContainerKind::Workspace }
    }
}

impl IntoContainer for WindowContainer {
    open spec fn container(self) -> Container {
        Container {
            id: self.id,
            kind: if self.is_tiling {
                ContainerKind::TilingWindow
            } else {
                ContainerKind::NonTilingWindow
            },
        }
    }

    fn into_container(self) -> (container: Container) {
        let kind: ContainerKind = if self.is_tiling {
            ContainerKind::TilingWindow
        } else {
            ContainerKind::NonTilingWindow
        };
        Container { id: self.id, kind }
    }
}

/// Whatever is taken for a container keeps its ID, and its kind tells what it
/// was.
pub proof fn law_containers_keep_their_ids(
    container: Container,
    workspace: Workspace,
    window: WindowContainer,
)
    ensures
        container.container() == container,
        workspace.container().id == workspace.id,
        workspace.container().kind == ContainerKind::Workspace,
        window.container().id == window.id,
        window.is_tiling <==> window.container().kind == ContainerKind::TilingWindow,
        !window.is_tiling <==> window.container().kind == ContainerKind::NonTilingWindow,
{
}

} // verus!
