# rs_pinocchio

A QP-based planning and control framework for robots, split in two:

- `src/` is the verified library (Verus). It holds what the framework decides on
  plain values: support sides and priorities and their names, the frame and axis
  selections of task masks, derivative coefficients of polynomials, the allocation
  of decision variables and the row layout of a QP's constraints (with the checks
  that reject malformed constraints), column-sparsity patterns of QP matrices, the
  grouping of a footstep sequence into supports, the set of masked degrees of
  freedom of the kinematics solver, and the error types.
- `app/` is ordinary Rust around it: everything computed on floating-point values
  (geometry, splines, affine expressions, the clarabel-backed QP solve, footstep
  planners, pendulum and swing-foot trajectories), the error types with their
  messages, and the glue that turns matrices into the plain values the library
  works on.

`tests/` exercises the library from outside.
