# yee_fem

Combinatorial core of a first-order Nedelec finite-element solver for
electromagnetic cavities and open-boundary driven problems, verified with
Verus.

## Layout

- `src/` — the verified library.
  - `mesh.rs`: tetrahedral mesh topology, canonical edge keys, the local
    edge and face tables of a tetrahedron.
  - `edges.rs`: first-seen global edge numbering, per-tetrahedron
    connectivity with orientation signs, the edge table with boundary
    flags.
  - `faces.rs`: face keys and face multiplicities.
  - `exterior.rs`: the exterior-face table (faces held by one tetrahedron)
    with face edges and signs, in walk order, optionally re-oriented.
  - `assembly.rs`: PEC elimination and the interior-DoF lift map, scatter
    plans of element blocks and source vectors, the closed-cavity and
    explicit-PEC assembly plans.
  - `boundary.rs`: exterior-face tagging (PEC, absorbing, wave port), the
    PEC edge set, the driven-system plan, driving-mode selection.
  - `material.rs`: material-tag registry (first registration wins).
  - `pml.rs`: the integer lattice of the PML shell extension of a Kuhn
    brick mesh, the shell position of every brick, and the map from the
    extended mesh's exterior faces back to the cavity's.
- `tests/` — tests of the library on concrete meshes.
- `app/` — the floating-point layer: vertex coordinates, dispersive
  materials, element integrals, sparse matrices, outward-normal and
  lattice detection, all applied through the verified plans.
