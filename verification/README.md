# aio_plugin_rbac

Access control for tenants: roles, the permissions they carry, and the
members that hold them.

- `src/` is the library, verified with Verus: validation of role ids and
  permissions, the tenant view shown to administrators, the access mutations
  (saving and deleting roles, renaming, assigning and removing members) as
  plans of checked steps run inside one transaction, the HTTP admission
  rules, and the computations of the admin pages.
- `app/` performs the I/O around it: the PostgreSQL queries that answer the
  mutations' steps, the axum routes, and the Dioxus admin pages.
- `tests/` runs the library, including a tenant scenario played against an
  in-memory database.
